//! The workspace manager: the process-wide layout state. It owns the tree
//! and the index of the currently active workspace, and exposes the
//! mutating operations that external callers (command channel, scripting
//! runtime) invoke. Each operation is one critical section: callers hold
//! the manager under one lock and every operation completes in memory.

use vstd::prelude::*;

use crate::containers::ContainerType;
use crate::containers::Handle;
use crate::containers::OutputHandle;
use crate::containers::ViewHandle;
use crate::tree::LayoutTree;
use crate::tree::TreeError;

verus! {

/// Process-wide layout state: the tree and the active workspace index,
/// updated together so no caller observes a torn state.
#[verifier::ext_equal]
pub struct WorkspaceManager {
    pub tree: LayoutTree,
    pub active_workspace: u32,
}

impl WorkspaceManager {
    /// The first output under the root, the one workspace operations work
    /// on.
    pub open spec fn first_output(self) -> Option<usize> {
        if self.tree.kids_at(0).len() > 0 {
            Some(self.tree.kids_at(0)[0])
        } else {
            None
        }
    }

    /// The manager's invariant: the tree is well formed, and the active
    /// index denotes an existing workspace of the first output whenever
    /// there is one.
    pub open spec fn wf(self) -> bool {
        &&& self.tree.wf()
        &&& match self.first_output() {
            Some(o) => (self.active_workspace as int) < self.tree.kids_at(o as int).len(),
            None => self.active_workspace == 0,
        }
    }

    /// A fresh manager: a tree holding only the root, no outputs yet, and
    /// workspace 0 active.
    pub fn new() -> (m: WorkspaceManager)
        ensures
            m.wf(),
            m.tree.slot_count() == 1,
            m.tree.kids_at(0).len() == 0,
            m.first_output() is None,
            m.active_workspace == 0,
    {
        WorkspaceManager { tree: LayoutTree::new_root(), active_workspace: 0 }
    }

    /// Attaches a new output under the root and gives it its two default
    /// workspaces. Returns the output's slot; its workspaces sit in the
    /// two slots after it.
    pub fn add_output(&mut self, output: OutputHandle) -> (out: usize)
        requires
            old(self).wf(),
            old(self).tree.slot_count() + 3 <= usize::MAX as int,
        ensures
            final(self).wf(),
            final(self).active_workspace == old(self).active_workspace,
            out as int == old(self).tree.slot_count(),
            final(self).tree.slot_count() == old(self).tree.slot_count() + 3,
            final(self).tree.is_live(out as int),
            final(self).tree.type_at(out as int) == ContainerType::Output,
            final(self).tree.node_at(out as int).handle == Some(Handle::Output(output)),
            final(self).tree.parent_at(out as int) == Some(0usize),
            final(self).tree.kids_at(0) == old(self).tree.kids_at(0).push(out),
            final(self).tree.kids_at(out as int).len() == 2,
            final(self).tree.kids_at(out as int)[0] as int == out as int + 1,
            final(self).tree.kids_at(out as int)[1] as int == out as int + 2,
            forall|w: int|
                out as int + 1 <= w <= out as int + 2 ==> {
                    &&& final(self).tree.is_live(w)
                    &&& final(self).tree.type_at(w) == ContainerType::Workspace
                    &&& final(self).tree.node_at(w).handle == Some(Handle::Output(output))
                    &&& final(self).tree.kids_at(w).len() == 0
                },
            forall|j: int|
                0 < j < old(self).tree.slot_count() ==> final(self).tree.nodes@[j] == old(
                    self,
                ).tree.nodes@[j],
            LayoutTree::same_but_children(
                final(self).tree.node_at(0),
                old(self).tree.node_at(0),
            ),
    {
        let ghost t0 = old(self).tree;
        let out = self.tree.new_output(0, output);
        let ghost ta = self.tree;
        proof {
            assert(ta.is_live(out as int));
            assert(ta.type_at(out as int) == ContainerType::Output);
        }
        let _w1 = self.tree.new_workspace(out);
        let ghost tb = self.tree;
        proof {
            assert(LayoutTree::same_but_children(
                tb.node_at(out as int),
                ta.node_at(out as int),
            ));
            assert(tb.is_live(out as int));
            assert(tb.type_at(out as int) == ContainerType::Output);
        }
        let _w2 = self.tree.new_workspace(out);
        proof {
            assert(LayoutTree::same_but_children(
                self.tree.node_at(out as int),
                tb.node_at(out as int),
            ));
            assert(self.tree.is_live(out as int));
            assert(self.tree.kids_at(out as int) == ta.kids_at(out as int).push(
                (out as int + 1) as usize,
            ).push((out as int + 2) as usize));
            assert(self.tree.node_at(out as int).handle == Some(Handle::Output(output)));
            assert(ta.node_at(out as int).handle == Some(Handle::Output(output)));
            assert(tb.node_at((out as int + 1) as usize as int).handle == ta.node_at(
                out as int,
            ).handle);
            assert(self.tree.nodes@[out as int + 1] == tb.nodes@[out as int + 1]);
        }
        proof {
            let t1 = self.tree;
            assert(t1.kids_at(0) == t0.kids_at(0).push(out));
            if t0.kids_at(0).len() > 0 {
                assert(t1.kids_at(0)[0] == t0.kids_at(0)[0]);
                let o = t0.kids_at(0)[0];
                assert(t0.kids_ok(0));
                assert(t0.is_live(o as int));
                assert(o as int != out as int && o as int != out as int + 1 && o as int
                    != out as int + 2);
                assert(t1.nodes@[o as int] == t0.nodes@[o as int]);
            }
        }
        out
    }

    /// Creates one more workspace under the first output. Reports the
    /// expected absence when no output has been attached yet.
    pub fn add_workspace(&mut self) -> (r: Result<usize, TreeError>)
        requires
            old(self).wf(),
            old(self).tree.slot_count() + 1 <= usize::MAX as int,
        ensures
            final(self).wf(),
            final(self).active_workspace == old(self).active_workspace,
            match old(self).first_output() {
                None => r == Err::<usize, TreeError>(TreeError::NotFound) && *final(self)
                    == *old(self),
                Some(o) => r == Ok::<usize, TreeError>(old(self).tree.slot_count() as usize)
                    && LayoutTree::attached_post(
                    old(self).tree,
                    final(self).tree,
                    o as int,
                    old(self).tree.slot_count(),
                    ContainerType::Workspace,
                    old(self).tree.node_at(o as int).handle,
                ),
            },
    {
        let o = {
            let root = match self.tree.get_node(0) {
                Some(n) => n,
                None => {
                    return Err(TreeError::NotFound);
                },
            };
            if root.children.len() == 0 {
                return Err(TreeError::NotFound);
            }
            root.children[0]
        };
        proof {
            assert(old(self).tree.kids_ok(0));
            assert(old(self).tree.is_live(o as int));
            assert(old(self).tree.parent_link_ok(o as int));
        }
        let w = self.tree.new_workspace(o);
        proof {
            assert(self.tree.kids_at(0) == old(self).tree.kids_at(0));
            assert(self.tree.kids_at(o as int).len() == old(self).tree.kids_at(
                o as int,
            ).len() + 1);
        }
        Ok(w)
    }

    /// Maps a new view under the workspace at the currently active index,
    /// beneath the first output. Reports the expected absence when no
    /// output has been attached yet.
    pub fn add_view(&mut self, view: ViewHandle) -> (r: Result<usize, TreeError>)
        requires
            old(self).wf(),
            old(self).tree.slot_count() + 1 <= usize::MAX as int,
        ensures
            final(self).wf(),
            final(self).active_workspace == old(self).active_workspace,
            match old(self).first_output() {
                None => r == Err::<usize, TreeError>(TreeError::NotFound) && *final(self)
                    == *old(self),
                Some(o) => r == Ok::<usize, TreeError>(old(self).tree.slot_count() as usize)
                    && LayoutTree::attached_post(
                    old(self).tree,
                    final(self).tree,
                    old(self).tree.kids_at(o as int)[old(self).active_workspace as int] as int,
                    old(self).tree.slot_count(),
                    ContainerType::View,
                    Some(Handle::View(view)),
                ),
            },
    {
        let o = {
            let root = match self.tree.get_node(0) {
                Some(n) => n,
                None => {
                    return Err(TreeError::NotFound);
                },
            };
            if root.children.len() == 0 {
                return Err(TreeError::NotFound);
            }
            root.children[0]
        };
        proof {
            assert(old(self).tree.kids_ok(0));
            assert(old(self).tree.is_live(o as int));
            assert(old(self).tree.parent_link_ok(o as int));
        }
        let active = self.active_workspace as usize;
        let ws = {
            let out_node = match self.tree.get_node(o) {
                Some(n) => n,
                None => {
                    return Err(TreeError::NotFound);
                },
            };
            out_node.children[active]
        };
        proof {
            assert(old(self).tree.kids_ok(o as int));
            assert(old(self).tree.is_live(ws as int));
            assert(old(self).tree.parent_link_ok(ws as int));
            assert(old(self).tree.type_at(ws as int) == ContainerType::Workspace);
        }
        let v = self.tree.new_view(ws, view);
        proof {
            assert(self.tree.kids_at(0) == old(self).tree.kids_at(0));
            assert(self.tree.nodes@[o as int] == old(self).tree.nodes@[o as int]);
        }
        Ok(v)
    }

    /// The slot of the first live view whose surface has the given
    /// identity, searching from slot `k` on.
    pub open spec fn find_view_from(t: LayoutTree, vid: u64, k: int) -> Option<int>
        decreases t.slot_count() - k,
    {
        if k < 0 || k >= t.slot_count() {
            None
        } else if t.is_live(k) && t.type_at(k) == ContainerType::View && (match t.node_at(
            k,
        ).handle {
            Some(Handle::View(v)) => v.id == vid,
            _ => false,
        }) {
            Some(k)
        } else {
            Self::find_view_from(t, vid, k + 1)
        }
    }

    /// Unmaps the view whose surface matches the given handle: the first
    /// view node carrying that surface identity is removed from its
    /// parent. Returns false, changing nothing, when no such view exists:
    /// a view can be unmapped exactly once, and a second unmap of the same
    /// handle finds nothing and is tolerated as already gone.
    pub fn remove_view(&mut self, view: &ViewHandle) -> (r: bool)
        requires
            old(self).wf(),
        ensures
            final(self).wf(),
            final(self).active_workspace == old(self).active_workspace,
            match Self::find_view_from(old(self).tree, view.id, 0) {
                None => r == false && *final(self) == *old(self),
                Some(v) => r == true && LayoutTree::removed_post(
                    old(self).tree,
                    final(self).tree,
                    v,
                ),
            },
    {
        let n_slots = self.tree.nodes.len();
        let mut i: usize = 0;
        while i < n_slots
            invariant
                self == old(self),
                self.wf(),
                n_slots as int == self.tree.slot_count(),
                0 <= i <= n_slots,
                Self::find_view_from(self.tree, view.id, 0) == Self::find_view_from(
                    self.tree,
                    view.id,
                    i as int,
                ),
            decreases n_slots - i,
        {
            let hit = match &self.tree.nodes[i] {
                Some(n) => {
                    if n.container_type == ContainerType::View {
                        match n.handle {
                            Some(Handle::View(v)) => v.id == view.id,
                            _ => false,
                        }
                    } else {
                        false
                    }
                },
                None => false,
            };
            if hit {
                proof {
                    assert(Self::find_view_from(self.tree, view.id, i as int) == Some(
                        i as int,
                    ));
                    assert(self.tree.views_childless());
                    assert(self.tree.type_at(i as int) == ContainerType::View);
                }
                let ghost t0 = self.tree;
                let res = self.tree.remove_container(i);
                proof {
                    assert(res is Ok);
                    assert(LayoutTree::removed_post(t0, self.tree, i as int));
                    // the first output and its workspaces survive a view
                    // removal untouched, so the active index stays valid
                    assert forall|j: int| t0.is_live(j) && j != i as int implies self.tree.is_live(
                        j,
                    ) by {
                        t0.lemma_childless_desc(i as int, j);
                    }
                    if t0.kids_at(0).len() > 0 {
                        let o = t0.kids_at(0)[0];
                        assert(t0.kids_ok(0));
                        assert(t0.parent_link_ok(i as int));
                        assert(t0.is_live(o as int));
                        assert(t0.parent_link_ok(o as int));
                        assert(t0.type_at(o as int) == ContainerType::Output);
                        assert(o as int != i as int);
                        assert(self.tree.is_live(0));
                        assert(Some(0usize) != t0.parent_at(i as int)) by {
                            if t0.parent_at(i as int) == Some(0usize) {
                                assert(t0.parent_link_ok(i as int));
                            }
                        }
                        assert(self.tree.nodes@[0] == t0.nodes@[0]);
                        assert(self.tree.is_live(o as int));
                        assert(Some(o) != t0.parent_at(i as int)) by {
                            if t0.parent_at(i as int) == Some(o) {
                                assert(t0.parent_link_ok(i as int));
                            }
                        }
                        assert(self.tree.nodes@[o as int] == t0.nodes@[o as int]);
                    }
                }
                return true;
            }
            proof {
                assert(Self::find_view_from(self.tree, view.id, i as int)
                    == Self::find_view_from(self.tree, view.id, i as int + 1));
            }
            i = i + 1;
        }
        proof {
            assert(Self::find_view_from(self.tree, view.id, i as int) is None);
        }
        false
    }

    /// What holds of the tree after a workspace switch that hides the
    /// subtree of `hide` and then shows the subtree of `show`: every view
    /// under `show` carries mask 1, every view under `hide` alone carries
    /// mask 0, and nothing else changed.
    pub open spec fn switch_post(t0: LayoutTree, t1: LayoutTree, hide: int, show: int) -> bool {
        &&& t1.slot_count() == t0.slot_count()
        &&& forall|j: int| t1.is_live(j) == t0.is_live(j)
        &&& forall|j: int|
            0 <= j < t0.slot_count() && !t0.is_live(j) ==> t1.nodes@[j] == t0.nodes@[j]
        &&& forall|j: int|
            t0.is_live(j) ==> LayoutTree::same_but_handle(t1.node_at(j), t0.node_at(j))
        &&& forall|j: int|
            t0.is_live(j) && !(t0.type_at(j) == ContainerType::View && (t0.is_desc(j, hide)
                || t0.is_desc(j, show))) ==> t1.node_at(j).handle == t0.node_at(j).handle
        &&& forall|j: int|
            t0.is_live(j) && t0.type_at(j) == ContainerType::View && t0.is_desc(j, show)
                ==> t1.node_at(j).handle == LayoutTree::set_view_mask(t0.node_at(j).handle, 1)
        &&& forall|j: int|
            t0.is_live(j) && t0.type_at(j) == ContainerType::View && t0.is_desc(j, hide)
                && !t0.is_desc(j, show) ==> t1.node_at(j).handle == LayoutTree::set_view_mask(
                t0.node_at(j).handle,
                0,
            )
    }

    /// Switches to the workspace at `index` under the first output, in one
    /// critical section: every view under the currently active workspace
    /// is hidden (mask 0), then every view under the target workspace is
    /// shown (mask 1), and the active index becomes `index`. Switching to
    /// the already-active index re-applies the masks identically. A
    /// missing output or workspace is the expected absence; nothing
    /// changes then.
    pub fn switch_workspace(&mut self, index: u32) -> (r: Result<(), TreeError>)
        requires
            old(self).wf(),
        ensures
            final(self).wf(),
            match old(self).first_output() {
                None => r == Err::<(), TreeError>(TreeError::NotFound) && *final(self) == *old(
                    self,
                ),
                Some(o) => {
                    if index as int >= old(self).tree.kids_at(o as int).len() {
                        r == Err::<(), TreeError>(TreeError::NotFound) && *final(self) == *old(
                            self,
                        )
                    } else {
                        &&& r == Ok::<(), TreeError>(())
                        &&& final(self).active_workspace == index
                        &&& Self::switch_post(
                            old(self).tree,
                            final(self).tree,
                            old(self).tree.kids_at(o as int)[old(
                                self,
                            ).active_workspace as int] as int,
                            old(self).tree.kids_at(o as int)[index as int] as int,
                        )
                    }
                },
            },
    {
        let o = {
            let root = match self.tree.get_node(0) {
                Some(n) => n,
                None => {
                    return Err(TreeError::NotFound);
                },
            };
            if root.children.len() == 0 {
                return Err(TreeError::NotFound);
            }
            root.children[0]
        };
        proof {
            assert(old(self).tree.kids_ok(0));
            assert(old(self).tree.is_live(o as int));
        }
        let (old_ws, new_ws) = {
            let out_node = match self.tree.get_node(o) {
                Some(n) => n,
                None => {
                    return Err(TreeError::NotFound);
                },
            };
            if (index as usize) >= out_node.children.len() {
                return Err(TreeError::NotFound);
            }
            (out_node.children[self.active_workspace as usize], out_node.children[index as usize])
        };
        let ghost t0 = self.tree;
        self.tree.set_view_masks_under(old_ws, 0);
        let ghost tm = self.tree;
        self.tree.set_view_masks_under(new_ws, 1);
        self.active_workspace = index;
        proof {
            let t1 = self.tree;
            let hide = old_ws as int;
            let show = new_ws as int;
            assert forall|j: int| t0.is_live(j) implies tm.parent_at(j) == t0.parent_at(
                j,
            ) by {}
            assert forall|j: int| #![auto] tm.is_desc(j, show) == t0.is_desc(j, show) by {
                LayoutTree::lemma_desc_same_skeleton(t0, tm, j, show);
            }
            // the masks compose: hiding then showing leaves the shown
            // subtree at 1, the hidden remainder at 0, the rest untouched
            assert forall|j: int|
                t0.is_live(j) && t0.type_at(j) == ContainerType::View && t0.is_desc(
                    j,
                    show,
                ) implies t1.node_at(j).handle == LayoutTree::set_view_mask(
                t0.node_at(j).handle,
                1,
            ) by {
                assert(tm.is_live(j) && tm.type_at(j) == ContainerType::View);
                assert(t1.node_at(j).handle == LayoutTree::set_view_mask(
                    tm.node_at(j).handle,
                    1,
                ));
            }
            // the first output's children are untouched, so the active
            // index stays valid
            assert(LayoutTree::same_but_handle(t1.node_at(0), t0.node_at(0)));
            assert(t1.kids_at(0) == t0.kids_at(0));
            assert(LayoutTree::same_but_handle(t1.node_at(o as int), t0.node_at(o as int)));
            assert(t1.kids_at(o as int) == t0.kids_at(o as int));
        }
        Ok(())
    }

    /// Re-applying a switch to the same workspace changes nothing: every
    /// view's visibility mask, and every node, is as it was after the
    /// first switch.
    pub proof fn lemma_switch_idempotent(
        t0: LayoutTree,
        t1: LayoutTree,
        t2: LayoutTree,
        hide: int,
        show: int,
    )
        requires
            Self::switch_post(t0, t1, hide, show),
            Self::switch_post(t1, t2, show, show),
        ensures
            forall|j: int| t2.is_live(j) == t1.is_live(j),
            forall|j: int| t1.is_live(j) ==> t2.node_at(j) == t1.node_at(j),
    {
        assert forall|j: int| t1.is_live(j) implies t2.node_at(j) == t1.node_at(j) by {
            assert(t0.is_live(j));
            assert(LayoutTree::same_but_handle(t1.node_at(j), t0.node_at(j)));
            assert(LayoutTree::same_but_handle(t2.node_at(j), t1.node_at(j)));
            assert(t1.is_desc(j, show) == t0.is_desc(j, show)) by {
                LayoutTree::lemma_desc_same_skeleton(t0, t1, j, show);
            }
            assert(t2.node_at(j).handle == t1.node_at(j).handle) by {
                if t1.type_at(j) == ContainerType::View && t1.is_desc(j, show) {
                    assert(t1.node_at(j).handle == LayoutTree::set_view_mask(
                        t0.node_at(j).handle,
                        1,
                    ));
                    assert(t2.node_at(j).handle == LayoutTree::set_view_mask(
                        t1.node_at(j).handle,
                        1,
                    ));
                }
            }
        }
    }

    /// Calling `switch_workspace` twice in a row with the same index
    /// leaves every view's visibility mask, and every node, exactly as it
    /// was after the first call. The two `switch_post` hypotheses are what
    /// the two calls ensure: after the first, `index` is the active
    /// workspace, so the second hides and shows the same subtree.
    pub proof fn lemma_switch_workspace_idempotent(
        m0: WorkspaceManager,
        m1: WorkspaceManager,
        m2: WorkspaceManager,
        index: u32,
    )
        requires
            m0.wf(),
            m0.first_output() is Some,
            (index as int) < m0.tree.kids_at(m0.first_output()->0 as int).len(),
            m1.active_workspace == index,
            Self::switch_post(
                m0.tree,
                m1.tree,
                m0.tree.kids_at(m0.first_output()->0 as int)[m0.active_workspace as int] as int,
                m0.tree.kids_at(m0.first_output()->0 as int)[index as int] as int,
            ),
            m1.first_output() == m0.first_output(),
            Self::switch_post(
                m1.tree,
                m2.tree,
                m1.tree.kids_at(m1.first_output()->0 as int)[m1.active_workspace as int] as int,
                m1.tree.kids_at(m1.first_output()->0 as int)[index as int] as int,
            ),
        ensures
            forall|j: int| m2.tree.is_live(j) == m1.tree.is_live(j),
            forall|j: int|
                m1.tree.is_live(j) ==> m2.tree.node_at(j) == m1.tree.node_at(j),
    {
        let o = m0.first_output()->0 as int;
        let show = m0.tree.kids_at(o)[index as int] as int;
        assert(m0.tree.is_live(o)) by {
            assert(m0.tree.kids_ok(0));
        }
        assert(m1.tree.kids_at(o) == m0.tree.kids_at(o)) by {
            assert(LayoutTree::same_but_handle(m1.tree.node_at(o), m0.tree.node_at(o)));
        }
        Self::lemma_switch_idempotent(
            m0.tree,
            m1.tree,
            m2.tree,
            m0.tree.kids_at(o)[m0.active_workspace as int] as int,
            show,
        );
    }

    /// The first focused workspace inside the output in slot `o`,
    /// searching its children from position `k` on.
    pub open spec fn focused_ws_in(t: LayoutTree, o: int, k: int) -> Option<usize>
        decreases t.kids_at(o).len() - k,
    {
        if k < 0 || k >= t.kids_at(o).len() {
            None
        } else if t.node_at(t.kids_at(o)[k] as int).focused {
            Some(t.kids_at(o)[k])
        } else {
            Self::focused_ws_in(t, o, k + 1)
        }
    }

    /// The first focused workspace under a focused output, scanning the
    /// outputs from position `k` on.
    pub open spec fn focused_ws_from(t: LayoutTree, k: int) -> Option<usize>
        decreases t.kids_at(0).len() - k,
    {
        if k < 0 || k >= t.kids_at(0).len() {
            None
        } else {
            let o = t.kids_at(0)[k] as int;
            if t.node_at(o).focused {
                match Self::focused_ws_in(t, o, 0) {
                    Some(w) => Some(w),
                    None => Self::focused_ws_from(t, k + 1),
                }
            } else {
                Self::focused_ws_from(t, k + 1)
            }
        }
    }

    /// Finds the workspace that currently has focus: the first focused
    /// workspace within a focused output. None when no output/workspace
    /// chain is focused.
    pub fn get_focused_workspace(&self) -> (r: Option<usize>)
        requires
            self.wf(),
        ensures
            r == Self::focused_ws_from(self.tree, 0),
    {
        let outs = match self.tree.get_node(0) {
            Some(n) => n.children.len(),
            None => 0,
        };
        let mut k: usize = 0;
        while k < outs
            invariant
                self.wf(),
                outs as int == self.tree.kids_at(0).len(),
                0 <= k <= outs,
                Self::focused_ws_from(self.tree, 0) == Self::focused_ws_from(
                    self.tree,
                    k as int,
                ),
            decreases outs - k,
        {
            let o = match self.tree.get_node(0) {
                Some(n) => n.children[k],
                None => 0,
            };
            proof {
                assert(self.tree.kids_ok(0));
                assert(self.tree.is_live(o as int));
            }
            let o_focused = match self.tree.get_node(o) {
                Some(n) => n.focused,
                None => false,
            };
            if o_focused {
                let wlen = match self.tree.get_node(o) {
                    Some(n) => n.children.len(),
                    None => 0,
                };
                let mut m: usize = 0;
                while m < wlen
                    invariant
                        self.wf(),
                        self.tree.is_live(o as int),
                        outs as int == self.tree.kids_at(0).len(),
                        0 <= k < outs,
                        o == self.tree.kids_at(0)[k as int],
                        self.tree.node_at(o as int).focused,
                        Self::focused_ws_from(self.tree, 0) == Self::focused_ws_from(
                            self.tree,
                            k as int,
                        ),
                        wlen as int == self.tree.kids_at(o as int).len(),
                        0 <= m <= wlen,
                        Self::focused_ws_in(self.tree, o as int, 0) == Self::focused_ws_in(
                            self.tree,
                            o as int,
                            m as int,
                        ),
                    decreases wlen - m,
                {
                    let w = match self.tree.get_node(o) {
                        Some(n) => n.children[m],
                        None => 0,
                    };
                    proof {
                        assert(self.tree.kids_ok(o as int));
                        assert(self.tree.is_live(w as int));
                    }
                    let w_focused = match self.tree.get_node(w) {
                        Some(n) => n.focused,
                        None => false,
                    };
                    if w_focused {
                        proof {
                            assert(Self::focused_ws_in(self.tree, o as int, m as int) == Some(
                                w,
                            ));
                            assert(Self::focused_ws_from(self.tree, k as int) == Some(w));
                        }
                        return Some(w);
                    }
                    proof {
                        assert(Self::focused_ws_in(self.tree, o as int, m as int)
                            == Self::focused_ws_in(self.tree, o as int, m as int + 1));
                    }
                    m = m + 1;
                }
                proof {
                    assert(Self::focused_ws_in(self.tree, o as int, m as int) is None);
                    assert(Self::focused_ws_from(self.tree, k as int)
                        == Self::focused_ws_from(self.tree, k as int + 1));
                }
            } else {
                proof {
                    assert(Self::focused_ws_from(self.tree, k as int)
                        == Self::focused_ws_from(self.tree, k as int + 1));
                }
            }
            k = k + 1;
        }
        proof {
            assert(Self::focused_ws_from(self.tree, k as int) is None);
        }
        None
    }
}

} // verus!
