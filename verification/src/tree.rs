//! The layout tree: the set of containers reachable from a single root,
//! held in a flat node table, plus the operations that create, relink and
//! destroy nodes while preserving the structural invariants.
//!
//! Nodes are addressed by slot index. A destroyed node leaves its slot
//! empty for good (slots are never reused), so a stale index held by a
//! caller resolves to "gone" rather than to an unrelated node. A node is
//! always created after its parent, so every parent link points to a
//! strictly smaller slot; that creation-order rule is what rules out
//! cycles and bounds every walk up the parent chain.

use vstd::prelude::*;

use crate::containers::Container;
use crate::containers::ContainerType;
use crate::containers::Handle;
use crate::containers::Layout;
use crate::containers::OutputHandle;
use crate::containers::ViewHandle;
use crate::containers::can_attach;
use crate::containers::handle_matches;
use crate::containers::spec_can_attach;

verus! {

/// How a tree operation can fail. The first three report attempts to break
/// a structural invariant; `NotFound` reports an expected absence (a stale
/// slot, an unresolved parent, a child that is not there), which callers
/// recover from.
#[derive(Debug, Clone, Copy, PartialEq, Eq, Structural)]
pub enum TreeError {
    /// Linking the two nodes would break the tree shape: an illegal
    /// parent/child type pairing, a child that is already attached, or a
    /// child slot that does not postdate its parent.
    InvalidEdge,
    /// The operation is not allowed on the root container.
    RootForbidden,
    /// Workspaces cannot be removed by generic child removal; they go away
    /// only when their output does.
    WorkspaceForbidden,
    /// The node, child or parent to operate on is not present.
    NotFound,
}

/// The layout tree. Slot 0 always holds the root.
#[verifier::ext_equal]
pub struct LayoutTree {
    pub nodes: Vec<Option<Container>>,
}

impl LayoutTree {
    /// Number of slots ever allocated, live or not.
    pub open spec fn slot_count(self) -> int {
        self.nodes@.len() as int
    }

    /// Whether slot `i` holds a live node.
    pub open spec fn is_live(self, i: int) -> bool {
        0 <= i < self.slot_count() && self.nodes@[i] is Some
    }

    /// The node in slot `i`.
    pub open spec fn node_at(self, i: int) -> Container {
        self.nodes@[i]->0
    }

    /// The type tag of the node in slot `i`.
    pub open spec fn type_at(self, i: int) -> ContainerType {
        self.node_at(i).container_type
    }

    /// The parent link of the node in slot `i`.
    pub open spec fn parent_at(self, i: int) -> Option<usize> {
        self.node_at(i).parent
    }

    /// The children of the node in slot `i`, in stacking order.
    pub open spec fn kids_at(self, i: int) -> Seq<usize> {
        self.node_at(i).children@
    }

    /// Slot 0 holds the root: no parent, no handle.
    pub open spec fn root_ok(self) -> bool {
        &&& self.slot_count() >= 1
        &&& self.is_live(0)
        &&& self.type_at(0) == ContainerType::Root
        &&& self.parent_at(0) is None
        &&& self.node_at(0).handle is None
    }

    /// At most one node of type Root exists.
    pub open spec fn only_one_root(self) -> bool {
        forall|i: int| self.is_live(i) && i != 0 ==> self.type_at(i) != ContainerType::Root
    }

    /// The parent link of a live node, when present, points to a live,
    /// strictly earlier slot of a legal parent type whose children list
    /// holds this node.
    pub open spec fn parent_link_ok(self, i: int) -> bool {
        match self.parent_at(i) {
            Some(p) => {
                &&& (p as int) < i
                &&& self.is_live(p as int)
                &&& spec_can_attach(self.type_at(i), self.type_at(p as int))
                &&& self.kids_at(p as int).contains(i as usize)
            },
            None => true,
        }
    }

    pub open spec fn parents_ok(self) -> bool {
        forall|i: int| self.is_live(i) ==> #[trigger] self.parent_link_ok(i)
    }

    /// Every child entry of a live node is live and points back to it.
    pub open spec fn kids_ok(self, i: int) -> bool {
        forall|k: int|
            0 <= k < self.kids_at(i).len() ==> {
                &&& self.is_live(#[trigger] self.kids_at(i)[k] as int)
                &&& self.parent_at(self.kids_at(i)[k] as int) == Some(i as usize)
            }
    }

    /// No child appears twice in one children list.
    pub open spec fn kids_unique(self, i: int) -> bool {
        forall|k1: int, k2: int|
            0 <= k1 < k2 < self.kids_at(i).len() ==> self.kids_at(i)[k1] != self.kids_at(
                i,
            )[k2]
    }

    pub open spec fn children_ok(self) -> bool {
        &&& forall|i: int| self.is_live(i) ==> #[trigger] self.kids_ok(i)
        &&& forall|i: int| self.is_live(i) ==> #[trigger] self.kids_unique(i)
    }

    /// Every live node carries the handle its type calls for.
    pub open spec fn handles_ok(self) -> bool {
        forall|i: int|
            self.is_live(i) ==> handle_matches(
                #[trigger] self.type_at(i),
                self.node_at(i).handle,
            )
    }

    /// Views never acquire children of their own.
    pub open spec fn views_childless(self) -> bool {
        forall|i: int|
            self.is_live(i) && #[trigger] self.type_at(i) == ContainerType::View
                ==> self.kids_at(i).len() == 0
    }

    /// A live workspace is always attached to its output and carries that
    /// output's handle; workspaces are never orphaned, since nothing may
    /// detach them.
    pub open spec fn workspaces_attached(self) -> bool {
        forall|i: int|
            self.is_live(i) && #[trigger] self.type_at(i) == ContainerType::Workspace
                ==> self.parent_at(i) is Some && self.node_at(i).handle == self.node_at(
                self.parent_at(i)->0 as int,
            ).handle
    }

    /// The structural invariant of the tree; every public operation
    /// preserves it.
    pub open spec fn wf(self) -> bool {
        &&& self.root_ok()
        &&& self.only_one_root()
        &&& self.parents_ok()
        &&& self.children_ok()
        &&& self.handles_ok()
        &&& self.views_childless()
        &&& self.workspaces_attached()
    }

    /// Whether `i` lies in the subtree rooted at `a`: `i` is `a` itself or
    /// its parent chain passes through `a`. The chain steps only to
    /// strictly smaller live slots, so the walk is well founded on any
    /// tree value.
    pub open spec fn is_desc(self, i: int, a: int) -> bool
        decreases i,
    {
        i == a || {
            &&& self.is_live(i)
            &&& match self.parent_at(i) {
                Some(p) => 0 <= (p as int) < i && self.is_desc(p as int, a),
                None => false,
            }
        }
    }

    /// Two nodes that agree on everything but their children list.
    pub open spec fn same_but_children(a: Container, b: Container) -> bool {
        &&& a.handle == b.handle
        &&& a.parent == b.parent
        &&& a.container_type == b.container_type
        &&& a.layout == b.layout
        &&& a.visible == b.visible
        &&& a.focused == b.focused
        &&& a.floating == b.floating
    }

    /// What holds after a fresh node of type `typ` with handle `h` has been
    /// linked under parent `p`: the node sits in the new slot `id` with
    /// default flags, `p` gained it as its last child, and no other slot
    /// changed.
    pub open spec fn attached_post(
        t0: LayoutTree,
        t1: LayoutTree,
        p: int,
        id: int,
        typ: ContainerType,
        h: Option<Handle>,
    ) -> bool {
        &&& id == t0.slot_count()
        &&& t1.slot_count() == t0.slot_count() + 1
        &&& t1.is_live(id)
        &&& t1.type_at(id) == typ
        &&& t1.node_at(id).handle == h
        &&& t1.parent_at(id) == Some(p as usize)
        &&& t1.kids_at(id).len() == 0
        &&& t1.node_at(id).layout == Layout::Untiled
        &&& t1.node_at(id).visible == false
        &&& t1.node_at(id).focused == false
        &&& t1.node_at(id).floating == false
        &&& t1.is_live(p)
        &&& t1.kids_at(p) == t0.kids_at(p).push(id as usize)
        &&& Self::same_but_children(t1.node_at(p), t0.node_at(p))
        &&& forall|j: int| 0 <= j < t0.slot_count() && j != p ==> t1.nodes@[j] == t0.nodes@[j]
    }

    /// Makes the root container of a fresh tree. There is exactly one of
    /// these per tree, in slot 0.
    pub fn new_root() -> (tree: LayoutTree)
        ensures
            tree.wf(),
            tree.slot_count() == 1,
            tree.is_live(0),
            tree.type_at(0) == ContainerType::Root,
            tree.kids_at(0).len() == 0,
            tree.node_at(0).layout == Layout::Untiled,
            tree.node_at(0).visible == false,
            tree.node_at(0).focused == false,
            tree.node_at(0).floating == false,
    {
        let root = Container {
            handle: None,
            parent: None,
            children: Vec::new(),
            container_type: ContainerType::Root,
            layout: Layout::Untiled,
            visible: false,
            focused: false,
            floating: false,
        };
        let mut nodes: Vec<Option<Container>> = Vec::new();
        nodes.push(Some(root));
        LayoutTree { nodes }
    }

    /// Links a freshly built node under a live parent: the one edge
    /// insertion every typed constructor goes through.
    fn attach(&mut self, p: usize, c: Container) -> (id: usize)
        requires
            old(self).wf(),
            old(self).is_live(p as int),
            spec_can_attach(c.container_type, old(self).type_at(p as int)),
            c.children@.len() == 0,
            c.parent is None,
            crate::containers::handle_matches(c.container_type, c.handle),
            c.container_type == ContainerType::Workspace ==> c.handle == old(self).node_at(
                p as int,
            ).handle,
            old(self).slot_count() < usize::MAX as int,
        ensures
            final(self).wf(),
            id as int == old(self).slot_count(),
            final(self).slot_count() == old(self).slot_count() + 1,
            final(self).is_live(id as int),
            final(self).node_at(id as int).handle == c.handle,
            final(self).node_at(id as int).parent == Some(p),
            final(self).kids_at(id as int).len() == 0,
            final(self).type_at(id as int) == c.container_type,
            final(self).node_at(id as int).layout == c.layout,
            final(self).node_at(id as int).visible == c.visible,
            final(self).node_at(id as int).focused == c.focused,
            final(self).node_at(id as int).floating == c.floating,
            final(self).is_live(p as int),
            final(self).kids_at(p as int) == old(self).kids_at(p as int).push(id),
            Self::same_but_children(
                final(self).node_at(p as int),
                old(self).node_at(p as int),
            ),
            forall|j: int|
                0 <= j < old(self).slot_count() && j != p ==> final(self).nodes@[j] == old(
                    self,
                ).nodes@[j],
    {
        let id = self.nodes.len();
        let mut child = c;
        child.parent = Some(p);
        self.nodes.push(Some(child));
        match &mut self.nodes[p] {
            Some(node) => node.children.push(id),
            None => {},
        }
        proof {
            let t0 = *old(self);
            let t1 = *self;
            assert(t1.slot_count() == t0.slot_count() + 1);
            assert forall|j: int|
                0 <= j < t0.slot_count() && j != p implies t1.nodes@[j] == t0.nodes@[j] by {}
            assert forall|j: int|
                0 <= j < t0.slot_count() && t1.is_live(j) implies t0.is_live(j)
                    && t1.type_at(j) == t0.type_at(j) && t1.parent_at(j) == t0.parent_at(j)
                    && t1.node_at(j).handle == t0.node_at(j).handle by {}
            assert forall|i: int| t1.is_live(i) implies t1.parent_link_ok(i) by {
                if i == id {
                    assert(t1.kids_at(p as int) == t0.kids_at(p as int).push(id));
                    assert(t1.kids_at(p as int)[t0.kids_at(p as int).len() as int] == id);
                    assert(t1.kids_at(p as int).contains(id));
                } else {
                    assert(t0.is_live(i));
                    assert(t0.parent_link_ok(i));
                    match t0.parent_at(i) {
                        Some(q) => {
                            if q == p {
                                let kk = choose|kk: int|
                                    0 <= kk < t0.kids_at(p as int).len() && t0.kids_at(
                                        p as int,
                                    )[kk] == i as usize;
                                assert(t0.kids_at(p as int).contains(i as usize));
                                assert(t1.kids_at(p as int)[kk] == i as usize);
                                assert(t1.kids_at(p as int).contains(i as usize));
                            }
                        },
                        None => {},
                    }
                }
            }
            assert forall|i: int| t1.is_live(i) implies t1.kids_ok(i) && t1.kids_unique(i) by {
                if i == id {
                    assert(t1.kids_at(i).len() == 0);
                } else {
                    assert(t0.is_live(i));
                    assert(t0.kids_ok(i));
                    assert(t0.kids_unique(i));
                    if i == p {
                        assert forall|k: int| 0 <= k < t1.kids_at(i).len() implies t1.is_live(
                            #[trigger] t1.kids_at(i)[k] as int,
                        ) && t1.parent_at(t1.kids_at(i)[k] as int) == Some(i as usize) by {
                            if k < t0.kids_at(i).len() {
                                assert(t1.kids_at(i)[k] == t0.kids_at(i)[k]);
                                assert(t0.is_live(t0.kids_at(i)[k] as int));
                            } else {
                                assert(t1.kids_at(i)[k] == id);
                            }
                        }
                        assert forall|k1: int, k2: int|
                            0 <= k1 < k2 < t1.kids_at(i).len() implies t1.kids_at(i)[k1]
                            != t1.kids_at(i)[k2] by {
                            if k2 < t0.kids_at(i).len() {
                                assert(t0.kids_at(i)[k1] != t0.kids_at(i)[k2]);
                            } else {
                                assert(t1.kids_at(i)[k2] == id);
                                assert(t0.is_live(t0.kids_at(i)[k1] as int));
                                assert((t0.kids_at(i)[k1] as int) < id as int);
                            }
                        }
                    }
                }
            }
            assert forall|i: int|
                t1.is_live(i) && #[trigger] t1.type_at(i)
                    == ContainerType::Workspace implies t1.parent_at(i) is Some && t1.node_at(
                i,
            ).handle == t1.node_at(t1.parent_at(i)->0 as int).handle by {
                if i != id {
                    assert(t0.is_live(i));
                    assert(t0.type_at(i) == ContainerType::Workspace);
                }
            }
        }
        id
    }

    /// A fresh, unlinked node with the given type and handle and default
    /// flags.
    fn fresh_node(typ: ContainerType, handle: Option<Handle>) -> (c: Container)
        ensures
            c.container_type == typ,
            c.handle == handle,
            c.parent is None,
            c.children@.len() == 0,
            c.layout == Layout::Untiled,
            c.visible == false,
            c.focused == false,
            c.floating == false,
    {
        Container {
            handle,
            parent: None,
            children: Vec::new(),
            container_type: typ,
            layout: Layout::Untiled,
            visible: false,
            focused: false,
            floating: false,
        }
    }

    /// Makes a new output under the root. An output can only be a child of
    /// the root node; it records which monitor its children are displayed
    /// on, with the resolution captured at creation.
    pub fn new_output(&mut self, root: usize, output: OutputHandle) -> (id: usize)
        requires
            old(self).wf(),
            old(self).is_live(root as int),
            old(self).type_at(root as int) == ContainerType::Root,
            old(self).slot_count() < usize::MAX as int,
        ensures
            final(self).wf(),
            Self::attached_post(
                *old(self),
                *final(self),
                root as int,
                id as int,
                ContainerType::Output,
                Some(Handle::Output(output)),
            ),
    {
        let c = Self::fresh_node(ContainerType::Output, Some(Handle::Output(output)));
        self.attach(root, c)
    }

    /// Makes a new workspace container. Workspaces can only be attached to
    /// outputs, and inherit the output's handle.
    pub fn new_workspace(&mut self, parent: usize) -> (id: usize)
        requires
            old(self).wf(),
            old(self).is_live(parent as int),
            old(self).type_at(parent as int) == ContainerType::Output,
            old(self).slot_count() < usize::MAX as int,
        ensures
            final(self).wf(),
            Self::attached_post(
                *old(self),
                *final(self),
                parent as int,
                id as int,
                ContainerType::Workspace,
                old(self).node_at(parent as int).handle,
            ),
    {
        let h = match &self.nodes[parent] {
            Some(n) => n.handle,
            None => None,
        };
        let c = Self::fresh_node(ContainerType::Workspace, h);
        self.attach(parent, c)
    }

    /// Makes a new container under a workspace or another container. It
    /// inherits the owning output's handle, so geometry queries can later
    /// find the monitor.
    pub fn new_container(&mut self, parent: usize) -> (id: usize)
        requires
            old(self).wf(),
            old(self).is_live(parent as int),
            old(self).type_at(parent as int) == ContainerType::Container || old(self).type_at(
                parent as int,
            ) == ContainerType::Workspace,
            old(self).slot_count() < usize::MAX as int,
        ensures
            final(self).wf(),
            Self::attached_post(
                *old(self),
                *final(self),
                parent as int,
                id as int,
                ContainerType::Container,
                old(self).node_at(parent as int).handle,
            ),
    {
        let h = match &self.nodes[parent] {
            Some(n) => n.handle,
            None => None,
        };
        let c = Self::fresh_node(ContainerType::Container, h);
        self.attach(parent, c)
    }

    /// Makes a new view holding the given window surface. A view may not
    /// hang directly under the root. Under a workspace it becomes a direct
    /// child; under a container it is inserted as a sibling of that
    /// container instead, one level up: new windows tile next to the
    /// current container, not nested inside it.
    pub fn new_view(&mut self, parent: usize, view: ViewHandle) -> (id: usize)
        requires
            old(self).wf(),
            old(self).is_live(parent as int),
            old(self).type_at(parent as int) == ContainerType::Workspace || (old(self).parent_at(
                parent as int,
            ) matches Some(q) && spec_can_attach(
                ContainerType::View,
                old(self).type_at(q as int),
            )),
            old(self).slot_count() < usize::MAX as int,
        ensures
            final(self).wf(),
            old(self).type_at(parent as int) == ContainerType::Workspace ==> Self::attached_post(
                *old(self),
                *final(self),
                parent as int,
                id as int,
                ContainerType::View,
                Some(Handle::View(view)),
            ),
            old(self).type_at(parent as int) != ContainerType::Workspace ==> Self::attached_post(
                *old(self),
                *final(self),
                old(self).parent_at(parent as int)->0 as int,
                id as int,
                ContainerType::View,
                Some(Handle::View(view)),
            ),
    {
        let c = Self::fresh_node(ContainerType::View, Some(Handle::View(view)));
        let ptype = match &self.nodes[parent] {
            Some(n) => n.container_type,
            None => ContainerType::Root,
        };
        if ptype == ContainerType::Workspace {
            self.attach(parent, c)
        } else {
            let q = match &self.nodes[parent] {
                Some(n) => match n.parent {
                    Some(q) => q,
                    None => 0,
                },
                None => 0,
            };
            proof {
                assert(old(self).parent_link_ok(parent as int));
            }
            self.attach(q, c)
        }
    }

    /// The resolved parent of the node in slot `id`: `None` for the root,
    /// for a slot that no longer holds a node, and for a node whose parent
    /// has been detached or destroyed.
    pub open spec fn spec_parent(self, id: int) -> Option<usize> {
        if !self.is_live(id) {
            None
        } else if self.type_at(id) == ContainerType::Root {
            None
        } else {
            self.parent_at(id)
        }
    }

    /// Resolves the node in slot `id`, or `None` if it has been destroyed.
    pub fn get_node(&self, id: usize) -> (r: Option<&Container>)
        ensures
            match r {
                Some(c) => self.is_live(id as int) && *c == self.node_at(id as int),
                None => !self.is_live(id as int),
            },
    {
        if id < self.nodes.len() {
            match &self.nodes[id] {
                Some(c) => Some(c),
                None => None,
            }
        } else {
            None
        }
    }

    /// Gets the parent that this container sits in: `None` for the root,
    /// and `None` when the node or its parent has since been destroyed
    /// (an orphaned child is an answer, never a crash).
    pub fn get_parent(&self, id: usize) -> (r: Option<usize>)
        ensures
            r == self.spec_parent(id as int),
    {
        if id >= self.nodes.len() {
            return None;
        }
        match &self.nodes[id] {
            Some(c) => {
                if c.container_type == ContainerType::Root {
                    None
                } else {
                    c.parent
                }
            },
            None => None,
        }
    }

    /// Well-formedness only looks at the tree's skeleton (liveness, types,
    /// parent links, children lists) and at handles up to their kind, so a
    /// change of flags or of view surface state preserves it.
    proof fn lemma_wf_relabel(t0: LayoutTree, t1: LayoutTree)
        requires
            t0.wf(),
            t1.slot_count() == t0.slot_count(),
            forall|j: int| t1.is_live(j) == t0.is_live(j),
            forall|j: int| t0.is_live(j) ==> t1.type_at(j) == t0.type_at(j),
            forall|j: int| t0.is_live(j) ==> t1.parent_at(j) == t0.parent_at(j),
            forall|j: int| t0.is_live(j) ==> t1.kids_at(j) == t0.kids_at(j),
            forall|j: int|
                t0.is_live(j) && t0.type_at(j) != ContainerType::View ==> t1.node_at(j).handle
                    == t0.node_at(j).handle,
            forall|j: int|
                t0.is_live(j) && t0.type_at(j) == ContainerType::View ==> (t1.node_at(
                    j,
                ).handle matches Some(Handle::View(_))),
        ensures
            t1.wf(),
    {
        assert forall|i: int| t1.is_live(i) implies t1.parent_link_ok(i) by {
            assert(t0.parent_link_ok(i));
        }
        assert forall|i: int| t1.is_live(i) implies t1.kids_ok(i) by {
            assert(t0.kids_ok(i));
            assert forall|k: int| 0 <= k < t1.kids_at(i).len() implies t1.is_live(
                #[trigger] t1.kids_at(i)[k] as int,
            ) && t1.parent_at(t1.kids_at(i)[k] as int) == Some(i as usize) by {
                assert(t0.is_live(t0.kids_at(i)[k] as int));
            }
        }
        assert forall|i: int| t1.is_live(i) implies t1.kids_unique(i) by {
            assert(t0.kids_unique(i));
        }
        assert forall|i: int| t1.is_live(i) implies crate::containers::handle_matches(
            #[trigger] t1.type_at(i),
            t1.node_at(i).handle,
        ) by {
            assert(crate::containers::handle_matches(t0.type_at(i), t0.node_at(i).handle));
        }
        assert forall|i: int|
            t1.is_live(i) && #[trigger] t1.type_at(i)
                == ContainerType::Workspace implies t1.parent_at(i) is Some && t1.node_at(
            i,
        ).handle == t1.node_at(t1.parent_at(i)->0 as int).handle by {
            assert(t0.is_live(i) && t0.type_at(i) == ContainerType::Workspace);
            assert(t0.parent_link_ok(i));
            assert(t0.type_at(t0.parent_at(i)->0 as int) == ContainerType::Output);
        }
    }

    /// Sets the node in slot `id` to the given visibility. Returns false,
    /// changing nothing, if the slot no longer holds a node.
    pub fn set_visibility(&mut self, id: usize, visibility: bool) -> (r: bool)
        requires
            old(self).wf(),
        ensures
            final(self).wf(),
            r == old(self).is_live(id as int),
            !r ==> *final(self) == *old(self),
            r ==> final(self).slot_count() == old(self).slot_count(),
            r ==> final(self).node_at(id as int).visible == visibility,
            r ==> Self::same_but_visible(
                final(self).node_at(id as int),
                old(self).node_at(id as int),
            ),
            r ==> forall|j: int|
                0 <= j < old(self).slot_count() && j != id ==> final(self).nodes@[j] == old(
                    self,
                ).nodes@[j],
    {
        if id >= self.nodes.len() {
            return false;
        }
        let live = match &self.nodes[id] {
            Some(_) => true,
            None => false,
        };
        if !live {
            return false;
        }
        match &mut self.nodes[id] {
            Some(c) => {
                c.visible = visibility;
            },
            None => {},
        }
        proof {
            let t0 = *old(self);
            let t1 = *self;
            assert forall|j: int| t1.is_live(j) == t0.is_live(j) by {}
            Self::lemma_wf_relabel(t0, t1);
        }
        true
    }

    /// Two nodes that agree on everything but their visibility flag.
    pub open spec fn same_but_visible(a: Container, b: Container) -> bool {
        &&& a.handle == b.handle
        &&& a.parent == b.parent
        &&& a.children == b.children
        &&& a.container_type == b.container_type
        &&& a.layout == b.layout
        &&& a.focused == b.focused
        &&& a.floating == b.floating
    }

    /// Two nodes that agree on everything but their parent link.
    pub open spec fn same_but_parent(a: Container, b: Container) -> bool {
        &&& a.handle == b.handle
        &&& a.children == b.children
        &&& a.container_type == b.container_type
        &&& a.layout == b.layout
        &&& a.visible == b.visible
        &&& a.focused == b.focused
        &&& a.floating == b.floating
    }

    /// How `add_child` decides. Attaching is legal only for a detached
    /// (parentless, non-root) child whose type may sit under the parent's
    /// type, into a slot younger than the parent's: the creation-order rule
    /// that keeps the tree acyclic.
    pub open spec fn add_child_outcome(t0: LayoutTree, p: int, c: int) -> Result<
        (),
        TreeError,
    > {
        if !t0.is_live(p) || !t0.is_live(c) {
            Err(TreeError::NotFound)
        } else if t0.parent_at(c) is Some {
            Err(TreeError::InvalidEdge)
        } else if !spec_can_attach(t0.type_at(c), t0.type_at(p)) {
            Err(TreeError::InvalidEdge)
        } else if c <= p {
            Err(TreeError::InvalidEdge)
        } else {
            Ok(())
        }
    }

    /// What holds after the detached node `c` has been linked under `p`:
    /// `p` gained `c` as its last child, `c`'s parent link points at `p`,
    /// and no other slot changed.
    pub open spec fn linked_post(t0: LayoutTree, t1: LayoutTree, p: int, c: int) -> bool {
        &&& t1.slot_count() == t0.slot_count()
        &&& t1.is_live(p) && t1.is_live(c)
        &&& t1.kids_at(p) == t0.kids_at(p).push(c as usize)
        &&& Self::same_but_children(t1.node_at(p), t0.node_at(p))
        &&& t1.parent_at(c) == Some(p as usize)
        &&& Self::same_but_parent(t1.node_at(c), t0.node_at(c))
        &&& forall|j: int|
            0 <= j < t0.slot_count() && j != p && j != c ==> t1.nodes@[j] == t0.nodes@[j]
    }

    /// Appends the detached node `child` to this node's children, in
    /// stacking order. Rejected when the pairing is illegal (a view can
    /// gain no child, a workspace cannot nest under a workspace), when the
    /// child is already attached somewhere, or when the child's slot does
    /// not postdate the parent's.
    pub fn add_child(&mut self, parent: usize, child: usize) -> (r: Result<(), TreeError>)
        requires
            old(self).wf(),
        ensures
            final(self).wf(),
            r == Self::add_child_outcome(*old(self), parent as int, child as int),
            r is Ok ==> Self::linked_post(*old(self), *final(self), parent as int, child as int),
            r is Err ==> *final(self) == *old(self),
    {
        if parent >= self.nodes.len() || child >= self.nodes.len() {
            return Err(TreeError::NotFound);
        }
        let ptype = match &self.nodes[parent] {
            Some(n) => Some(n.container_type),
            None => None,
        };
        let cinfo = match &self.nodes[child] {
            Some(n) => Some((n.container_type, n.parent)),
            None => None,
        };
        let (pt, ct, cparent) = match (ptype, cinfo) {
            (Some(pt), Some((ct, cp))) => (pt, ct, cp),
            _ => {
                return Err(TreeError::NotFound);
            },
        };
        if cparent.is_some() {
            return Err(TreeError::InvalidEdge);
        }
        if !can_attach(ct, pt) {
            return Err(TreeError::InvalidEdge);
        }
        if child <= parent {
            return Err(TreeError::InvalidEdge);
        }
        match &mut self.nodes[child] {
            Some(n) => n.parent = Some(parent),
            None => {},
        }
        match &mut self.nodes[parent] {
            Some(n) => n.children.push(child),
            None => {},
        }
        proof {
            let t0 = *old(self);
            let t1 = *self;
            assert(t1.slot_count() == t0.slot_count());
            assert forall|j: int|
                0 <= j < t0.slot_count() && j != parent && j != child implies t1.nodes@[j]
                == t0.nodes@[j] by {}
            assert forall|j: int| t1.is_live(j) == t0.is_live(j) by {}
            // the child was in nobody's children list: a list holding it
            // would have forced its parent link to be set
            assert forall|q: int, k: int|
                t0.is_live(q) && 0 <= k < t0.kids_at(q).len() implies t0.kids_at(q)[k]
                != child by {
                assert(t0.kids_ok(q));
                assert(t0.parent_at(t0.kids_at(q)[k] as int) == Some(q as usize));
            }
            assert(ct != ContainerType::Workspace) by {
                if ct == ContainerType::Workspace {
                    assert(t0.parent_at(child as int) is Some);
                }
            }
            assert forall|i: int| t1.is_live(i) implies t1.parent_link_ok(i) by {
                if i == child as int {
                    assert(t1.kids_at(parent as int)[t0.kids_at(parent as int).len() as int]
                        == child);
                    assert(t1.kids_at(parent as int).contains(child));
                } else {
                    assert(t0.parent_link_ok(i));
                    match t0.parent_at(i) {
                        Some(q) => {
                            if q == parent {
                                let kk = choose|kk: int|
                                    0 <= kk < t0.kids_at(parent as int).len() && t0.kids_at(
                                        parent as int,
                                    )[kk] == i as usize;
                                assert(t0.kids_at(parent as int).contains(i as usize));
                                assert(t1.kids_at(parent as int)[kk] == i as usize);
                                assert(t1.kids_at(parent as int).contains(i as usize));
                            }
                        },
                        None => {},
                    }
                }
            }
            assert forall|i: int| t1.is_live(i) implies t1.kids_ok(i) by {
                assert(t0.kids_ok(i));
                assert forall|k: int| 0 <= k < t1.kids_at(i).len() implies t1.is_live(
                    #[trigger] t1.kids_at(i)[k] as int,
                ) && t1.parent_at(t1.kids_at(i)[k] as int) == Some(i as usize) by {
                    if i == parent as int && k == t0.kids_at(i).len() {
                        assert(t1.kids_at(i)[k] == child);
                    } else {
                        assert(t1.kids_at(i)[k] == t0.kids_at(i)[k]);
                        assert(t0.kids_at(i)[k] != child);
                        assert(t0.is_live(t0.kids_at(i)[k] as int));
                    }
                }
            }
            assert forall|i: int| t1.is_live(i) implies t1.kids_unique(i) by {
                assert(t0.kids_unique(i));
                if i == parent as int {
                    assert forall|k1: int, k2: int|
                        0 <= k1 < k2 < t1.kids_at(i).len() implies t1.kids_at(i)[k1]
                        != t1.kids_at(i)[k2] by {
                        if k2 < t0.kids_at(i).len() {
                            assert(t0.kids_at(i)[k1] != t0.kids_at(i)[k2]);
                        } else {
                            assert(t1.kids_at(i)[k2] == child);
                            assert(t0.kids_at(i)[k1] != child);
                        }
                    }
                } else {
                    assert(t1.kids_at(i) == t0.kids_at(i));
                }
            }
            assert forall|i: int|
                t1.is_live(i) && #[trigger] t1.type_at(i)
                    == ContainerType::Workspace implies t1.parent_at(i) is Some && t1.node_at(
                i,
            ).handle == t1.node_at(t1.parent_at(i)->0 as int).handle by {
                assert(t0.is_live(i) && t0.type_at(i) == ContainerType::Workspace);
                assert(i != child as int);
            }
            assert forall|i: int| t1.is_live(i) implies crate::containers::handle_matches(
                #[trigger] t1.type_at(i),
                t1.node_at(i).handle,
            ) by {
                assert(crate::containers::handle_matches(t0.type_at(i), t0.node_at(i).handle));
            }
        }
        Ok(())
    }

    /// Inserts the detached node `sibling` next to this node, by delegating
    /// to the resolved parent's `add_child`. The root has no parent to
    /// insert relative to; an orphaned node reports its parent as absent.
    pub fn add_sibling(&mut self, node: usize, sibling: usize) -> (r: Result<(), TreeError>)
        requires
            old(self).wf(),
        ensures
            final(self).wf(),
            !old(self).is_live(node as int) ==> r == Err::<(), TreeError>(TreeError::NotFound)
                && *final(self) == *old(self),
            old(self).is_live(node as int) && old(self).type_at(node as int)
                == ContainerType::Root ==> r == Err::<(), TreeError>(TreeError::RootForbidden)
                && *final(self) == *old(self),
            old(self).is_live(node as int) && old(self).type_at(node as int)
                != ContainerType::Root ==> (match old(self).parent_at(node as int) {
                None => r == Err::<(), TreeError>(TreeError::NotFound) && *final(self) == *old(
                    self,
                ),
                Some(p) => {
                    &&& r == Self::add_child_outcome(*old(self), p as int, sibling as int)
                    &&& (r is Ok ==> Self::linked_post(
                        *old(self),
                        *final(self),
                        p as int,
                        sibling as int,
                    ))
                    &&& (r is Err ==> *final(self) == *old(self))
                },
            }),
    {
        if node >= self.nodes.len() {
            return Err(TreeError::NotFound);
        }
        let info = match &self.nodes[node] {
            Some(n) => Some((n.container_type, n.parent)),
            None => None,
        };
        match info {
            None => Err(TreeError::NotFound),
            Some((t, par)) => {
                if t == ContainerType::Root {
                    Err(TreeError::RootForbidden)
                } else {
                    match par {
                        None => Err(TreeError::NotFound),
                        Some(p) => self.add_child(p, sibling),
                    }
                }
            },
        }
    }

    /// What holds after the child at position `k` under `p` has been
    /// detached: it is gone from `p`'s children, its parent link is
    /// cleared, it stays live as the root of its own subtree, and no other
    /// slot changed.
    pub open spec fn detached_post(t0: LayoutTree, t1: LayoutTree, p: int, k: int) -> bool {
        let c = t0.kids_at(p)[k] as int;
        &&& t1.slot_count() == t0.slot_count()
        &&& t1.is_live(p) && t1.is_live(c)
        &&& t1.kids_at(p) == t0.kids_at(p).remove(k)
        &&& Self::same_but_children(t1.node_at(p), t0.node_at(p))
        &&& t1.parent_at(c) is None
        &&& Self::same_but_parent(t1.node_at(c), t0.node_at(c))
        &&& forall|j: int|
            0 <= j < t0.slot_count() && j != p && j != c ==> t1.nodes@[j] == t0.nodes@[j]
    }

    /// Unlinks the child at position `k` under `p`. The caller has ruled
    /// out workspaces, which may never come loose.
    fn detach_at(&mut self, p: usize, k: usize) -> (c: usize)
        requires
            old(self).wf(),
            old(self).is_live(p as int),
            (k as int) < old(self).kids_at(p as int).len(),
            old(self).type_at(old(self).kids_at(p as int)[k as int] as int)
                != ContainerType::Workspace,
        ensures
            final(self).wf(),
            c == old(self).kids_at(p as int)[k as int],
            Self::detached_post(*old(self), *final(self), p as int, k as int),
    {
        proof {
            assert(old(self).kids_ok(p as int));
        }
        let n_slots = self.nodes.len();
        let c = match &self.nodes[p] {
            Some(n) => n.children[k],
            None => 0,
        };
        match &mut self.nodes[p] {
            Some(n) => {
                n.children.remove(k);
            },
            None => {},
        }
        match &mut self.nodes[c] {
            Some(n) => n.parent = None,
            None => {},
        }
        proof {
            let t0 = *old(self);
            let t1 = *self;
            let kk = k as int;
            let pp = p as int;
            let cc = c as int;
            assert(t0.slot_count() == n_slots as int);
            assert(t0.slot_count() <= usize::MAX as int);
            assert(t0.kids_ok(pp));
            assert(t0.parent_at(cc) == Some(p));
            assert(t0.is_live(cc));
            assert(t0.parent_link_ok(cc));
            assert(pp < cc);
            assert(t1.kids_at(pp) == t0.kids_at(pp).remove(kk));
            assert forall|j: int|
                0 <= j < t0.slot_count() && j != pp && j != cc implies t1.nodes@[j]
                == t0.nodes@[j] by {}
            assert forall|j: int| t1.is_live(j) == t0.is_live(j) by {}
            assert(t1.node_at(pp).parent == t0.node_at(pp).parent);
            // an entry of any children list other than the detached one is
            // untouched and keeps its back link
            assert forall|q: int, m: int|
                t0.is_live(q) && 0 <= m < t0.kids_at(q).len() && t0.kids_at(q)[m]
                    != c implies t1.parent_at(t0.kids_at(q)[m] as int) == Some(q as usize) by {
                assert(t0.kids_ok(q));
                let e = t0.kids_at(q)[m] as int;
                assert(t0.parent_at(e) == Some(q as usize));
                if e != pp && e != cc {
                    assert(t1.nodes@[e] == t0.nodes@[e]);
                }
            }
            assert forall|q: int, m: int|
                t0.is_live(q) && 0 <= m < t0.kids_at(q).len() && (q != pp || m != kk)
                    implies t0.kids_at(q)[m] != c by {
                assert(t0.kids_ok(q));
                if q == pp {
                    assert(t0.kids_unique(pp));
                    if m < kk {
                        assert(t0.kids_at(pp)[m] != t0.kids_at(pp)[kk]);
                    } else {
                        assert(t0.kids_at(pp)[kk] != t0.kids_at(pp)[m]);
                    }
                } else {
                    assert(t0.parent_at(t0.kids_at(q)[m] as int) == Some(q as usize));
                    if t0.kids_at(q)[m] == c {
                        assert(t0.parent_at(cc) == Some(q as usize));
                        assert((q as usize) as int == q);
                        assert(false);
                    }
                }
            }
            assert forall|i: int| t1.is_live(i) implies t1.parent_link_ok(i) by {
                assert(t0.parent_link_ok(i));
                if i != cc {
                    match t0.parent_at(i) {
                        Some(q) => {
                            if q == p {
                                assert(t0.kids_at(pp).contains(i as usize));
                                let m = choose|m: int|
                                    0 <= m < t0.kids_at(pp).len() && t0.kids_at(pp)[m]
                                        == i as usize;
                                assert(t0.kids_at(pp)[m] == i as usize);
                                assert(0 <= i < t0.slot_count());
                                assert((i as usize) as int == i);
                                assert(i as usize != c);
                                assert(m != kk);
                                if m < kk {
                                    assert(t1.kids_at(pp)[m] == i as usize);
                                } else {
                                    assert(t1.kids_at(pp)[m - 1] == i as usize);
                                }
                                assert(t1.kids_at(pp).contains(i as usize));
                            }
                        },
                        None => {},
                    }
                }
            }
            assert forall|i: int| t1.is_live(i) implies t1.kids_ok(i) by {
                assert(t0.kids_ok(i));
                assert forall|m: int| 0 <= m < t1.kids_at(i).len() implies t1.is_live(
                    #[trigger] t1.kids_at(i)[m] as int,
                ) && t1.parent_at(t1.kids_at(i)[m] as int) == Some(i as usize) by {
                    let mo: int = if i == pp && m >= kk {
                        m + 1
                    } else {
                        m
                    };
                    assert(t1.kids_at(i)[m] == t0.kids_at(i)[mo]);
                    assert(t0.kids_at(i)[mo] != c);
                    assert(t1.parent_at(t0.kids_at(i)[mo] as int) == Some(i as usize));
                    assert(t0.is_live(t0.kids_at(i)[mo] as int));
                }
            }
            assert forall|i: int| t1.is_live(i) implies t1.kids_unique(i) by {
                assert(t0.kids_unique(i));
                if i == pp {
                    assert forall|k1: int, k2: int|
                        0 <= k1 < k2 < t1.kids_at(i).len() implies t1.kids_at(i)[k1]
                        != t1.kids_at(i)[k2] by {
                        let o1: int = if k1 < kk {
                            k1
                        } else {
                            k1 + 1
                        };
                        let o2: int = if k2 < kk {
                            k2
                        } else {
                            k2 + 1
                        };
                        assert(t1.kids_at(i)[k1] == t0.kids_at(i)[o1]);
                        assert(t1.kids_at(i)[k2] == t0.kids_at(i)[o2]);
                    }
                } else {
                    assert(t1.kids_at(i) == t0.kids_at(i));
                }
            }
            assert forall|i: int| t1.is_live(i) implies crate::containers::handle_matches(
                #[trigger] t1.type_at(i),
                t1.node_at(i).handle,
            ) by {
                assert(crate::containers::handle_matches(t0.type_at(i), t0.node_at(i).handle));
            }
            assert forall|i: int|
                t1.is_live(i) && #[trigger] t1.type_at(i)
                    == ContainerType::Workspace implies t1.parent_at(i) is Some && t1.node_at(
                i,
            ).handle == t1.node_at(t1.parent_at(i)->0 as int).handle by {
                assert(t0.is_live(i) && t0.type_at(i) == ContainerType::Workspace);
                assert(i != cc);
            }
        }
        c
    }

    /// Removes the child at the given position, handing back its slot: the
    /// detached node is still a valid tree of its own, now rooted
    /// independently. Workspaces cannot be removed this way.
    pub fn remove_child_at(&mut self, parent: usize, index: usize) -> (r: Result<
        usize,
        TreeError,
    >)
        requires
            old(self).wf(),
            old(self).is_live(parent as int),
            (index as int) < old(self).kids_at(parent as int).len(),
        ensures
            final(self).wf(),
            ({
                let c = old(self).kids_at(parent as int)[index as int] as int;
                if old(self).type_at(c) == ContainerType::Workspace {
                    r == Err::<usize, TreeError>(TreeError::WorkspaceForbidden) && *final(self)
                        == *old(self)
                } else {
                    r == Ok::<usize, TreeError>(old(self).kids_at(parent as int)[index as int])
                        && Self::detached_post(
                        *old(self),
                        *final(self),
                        parent as int,
                        index as int,
                    )
                }
            }),
    {
        proof {
            assert(old(self).kids_ok(parent as int));
        }
        let c = match &self.nodes[parent] {
            Some(n) => n.children[index],
            None => 0,
        };
        let ct = match &self.nodes[c] {
            Some(n) => n.container_type,
            None => ContainerType::Root,
        };
        if ct == ContainerType::Workspace {
            return Err(TreeError::WorkspaceForbidden);
        }
        let got = self.detach_at(parent, index);
        Ok(got)
    }

    /// Position of the first child of `p` whose type equals `t`, searching
    /// from position `k` on.
    pub open spec fn first_kid_of_type_from(
        self,
        p: int,
        t: ContainerType,
        k: int,
    ) -> Option<int>
        decreases self.kids_at(p).len() - k,
    {
        if k < 0 || k >= self.kids_at(p).len() {
            None
        } else if self.type_at(self.kids_at(p)[k] as int) == t {
            Some(k)
        } else {
            self.first_kid_of_type_from(p, t, k + 1)
        }
    }

    /// Removes the first child structurally equal to the given node from
    /// this container's children. Node identity is by type, not by value
    /// equality of contents; callers needing exact-node identity must go
    /// by slot. Fails when the match is a workspace or when no child
    /// matches.
    pub fn remove_child(&mut self, parent: usize, node: &Container) -> (r: Result<
        usize,
        TreeError,
    >)
        requires
            old(self).wf(),
            old(self).is_live(parent as int),
        ensures
            final(self).wf(),
            ({
                let t0 = *old(self);
                match Self::first_kid_of_type_from(
                    t0,
                    parent as int,
                    node.container_type,
                    0,
                ) {
                    None => r == Err::<usize, TreeError>(TreeError::NotFound) && *final(self)
                        == t0,
                    Some(k) => {
                        if node.container_type == ContainerType::Workspace {
                            r == Err::<usize, TreeError>(TreeError::WorkspaceForbidden)
                                && *final(self) == t0
                        } else {
                            r == Ok::<usize, TreeError>(t0.kids_at(parent as int)[k]) 
                                && Self::detached_post(t0, *final(self), parent as int, k)
                        }
                    },
                }
            }),
    {
        let t = node.get_type();
        let mut k: usize = 0;
        let len = match &self.nodes[parent] {
            Some(n) => n.children.len(),
            None => 0,
        };
        proof {
            assert(old(self).kids_ok(parent as int));
        }
        while k < len
            invariant
                self == old(self),
                self.wf(),
                self.is_live(parent as int),
                t == node.container_type,
                len == self.kids_at(parent as int).len(),
                0 <= k <= len,
                Self::first_kid_of_type_from(*self, parent as int, t, 0)
                    == Self::first_kid_of_type_from(*self, parent as int, t, k as int),
            decreases len - k,
        {
            let kid = match &self.nodes[parent] {
                Some(n) => n.children[k],
                None => 0,
            };
            proof {
                assert(self.kids_ok(parent as int));
            }
            let kt = match &self.nodes[kid] {
                Some(n) => n.container_type,
                None => ContainerType::Root,
            };
            if kt == t {
                proof {
                    assert(Self::first_kid_of_type_from(*self, parent as int, t, k as int)
                        == Some(k as int));
                }
                if t == ContainerType::Workspace {
                    return Err(TreeError::WorkspaceForbidden);
                }
                let got = self.detach_at(parent, k);
                return Ok(got);
            }
            proof {
                assert(Self::first_kid_of_type_from(*self, parent as int, t, k as int)
                    == Self::first_kid_of_type_from(*self, parent as int, t, k as int + 1));
            }
            k = k + 1;
        }
        proof {
            assert(Self::first_kid_of_type_from(*self, parent as int, t, k as int) is None);
        }
        Err(TreeError::NotFound)
    }

    /// A strict descendant lives in a strictly later slot than its
    /// ancestor: nodes postdate their parents.
    pub proof fn lemma_desc_bound(self, j: int, a: int)
        requires
            self.is_desc(j, a),
            j != a,
        ensures
            a < j,
            self.is_live(j),
        decreases j,
    {
        match self.parent_at(j) {
            Some(p) => {
                if p as int != a {
                    self.lemma_desc_bound(p as int, a);
                }
            },
            None => {},
        }
    }

    /// Walks the parent chain to decide whether `i` lies in the subtree
    /// rooted at `a`.
    pub fn is_descendant(&self, i: usize, a: usize) -> (r: bool)
        requires
            self.wf(),
        ensures
            r == self.is_desc(i as int, a as int),
    {
        let mut cur = i;
        while cur != a
            invariant
                self.wf(),
                self.is_desc(i as int, a as int) == self.is_desc(cur as int, a as int),
            decreases cur,
        {
            if cur >= self.nodes.len() {
                return false;
            }
            match &self.nodes[cur] {
                None => {
                    return false;
                },
                Some(n) => {
                    match n.parent {
                        None => {
                            return false;
                        },
                        Some(p) => {
                            proof {
                                assert(self.parent_link_ok(cur as int));
                            }
                            cur = p;
                        },
                    }
                },
            }
        }
        true
    }

    /// What holds after the node in slot `x` and its whole subtree have
    /// been destroyed: exactly the descendants of `x` are gone, `x`'s old
    /// parent (if any) lost it from its children, and every surviving node
    /// is otherwise untouched.
    pub open spec fn removed_post(t0: LayoutTree, t1: LayoutTree, x: int) -> bool {
        &&& t1.slot_count() == t0.slot_count()
        &&& forall|j: int| t1.is_live(j) == (t0.is_live(j) && !t0.is_desc(j, x))
        &&& (match t0.parent_at(x) {
            Some(px) => {
                &&& t1.is_live(px as int)
                &&& Self::same_but_children(t1.node_at(px as int), t0.node_at(px as int))
                &&& exists|k: int|
                    0 <= k < t0.kids_at(px as int).len() && t0.kids_at(px as int)[k] == (
                    x as usize) && t1.kids_at(px as int) == t0.kids_at(px as int).remove(k)
            },
            None => true,
        })
        &&& forall|j: int|
            t1.is_live(j) && Some(j as usize) != t0.parent_at(x) ==> t1.nodes@[j]
                == t0.nodes@[j]
    }

    /// Removes this container and everything in it from the tree. The
    /// whole subtree is destroyed: afterwards none of its nodes is live,
    /// so none is reachable from the root. The root itself cannot be
    /// removed, nor can a workspace; a slot that no longer holds a node
    /// reports the expected absence.
    #[verifier::spinoff_prover]
    #[verifier::rlimit(60)]
    pub fn remove_container(&mut self, node: usize) -> (r: Result<(), TreeError>)
        requires
            old(self).wf(),
        ensures
            final(self).wf(),
            !old(self).is_live(node as int) ==> r == Err::<(), TreeError>(TreeError::NotFound)
                && *final(self) == *old(self),
            old(self).is_live(node as int) && old(self).type_at(node as int)
                == ContainerType::Root ==> r == Err::<(), TreeError>(TreeError::RootForbidden)
                && *final(self) == *old(self),
            old(self).is_live(node as int) && old(self).type_at(node as int)
                == ContainerType::Workspace ==> r == Err::<(), TreeError>(
                TreeError::WorkspaceForbidden,
            ) && *final(self) == *old(self),
            old(self).is_live(node as int) && old(self).type_at(node as int)
                != ContainerType::Root && old(self).type_at(node as int)
                != ContainerType::Workspace ==> r == Ok::<(), TreeError>(())
                && Self::removed_post(*old(self), *final(self), node as int),
    {
        let ghost t0 = *old(self);
        let ghost x = node as int;
        let ghost mut kx: int = 0;
        let ghost pxi: int = match old(self).parent_at(node as int) {
            Some(px) => px as int,
            None => -1,
        };
        if node >= self.nodes.len() {
            return Err(TreeError::NotFound);
        }
        let info = match &self.nodes[node] {
            Some(n) => Some((n.container_type, n.parent)),
            None => None,
        };
        let (t, par) = match info {
            Some(pair) => pair,
            None => {
                return Err(TreeError::NotFound);
            },
        };
        if t == ContainerType::Root {
            return Err(TreeError::RootForbidden);
        }
        if t == ContainerType::Workspace {
            return Err(TreeError::WorkspaceForbidden);
        }
        // unlink from the parent, when one is still attached
        match par {
            Some(p) => {
                proof {
                    assert(t0.parent_link_ok(x));
                    assert(t0.kids_at(p as int).contains(node));
                    assert(t0.kids_ok(p as int));
                }
                let plen = match &self.nodes[p] {
                    Some(n) => n.children.len(),
                    None => 0,
                };
                let mut k: usize = 0;
                let mut found = false;
                while k < plen && !found
                    invariant
                        self == old(self),
                        self.wf(),
                        t0 == *self,
                        x == node as int,
                        self.is_live(node as int),
                        self.parent_at(x) == Some(p),
                        self.is_live(p as int),
                        plen == self.kids_at(p as int).len(),
                        0 <= k <= plen,
                        found ==> k < plen && self.kids_at(p as int)[k as int] == node,
                        !found ==> forall|m: int|
                            0 <= m < k as int ==> self.kids_at(p as int)[m] != node,
                        self.kids_at(p as int).contains(node),
                    decreases 2 * (plen - k) + (if found { 0int } else { 1int }),
                {
                    let kid = match &self.nodes[p] {
                        Some(n) => n.children[k],
                        None => 0,
                    };
                    if kid == node {
                        found = true;
                    } else {
                        k = k + 1;
                    }
                }
                proof {
                    if !found {
                        let m = choose|m: int|
                            0 <= m < t0.kids_at(p as int).len() && t0.kids_at(p as int)[m]
                                == node;
                        assert(false);
                    }
                    assert(t0.kids_at(p as int)[k as int] == node);
                    assert(t0.type_at(x) != ContainerType::Workspace);
                    kx = k as int;
                }
                let _ = self.detach_at(p, k);
            },
            None => {},
        }
        // destroy the node itself, then sweep the younger slots: a node
        // whose parent has been destroyed belongs to the subtree and goes
        // too. Slots are ordered by creation, so every parent is visited
        // before its children.
        let ghost tm = *self;
        {
            let slot = &mut self.nodes[node];
            *slot = None;
        }
        proof {
            assert(t0.parent_link_ok(x));
            assert(pxi < x);
            assert forall|j: int|
                0 <= j <= x && j != pxi implies self.nodes@[j] == (
                if t0.is_live(j) && t0.is_desc(j, x) {
                    None::<Container>
                } else {
                    t0.nodes@[j]
                }) by {
                if j != x && t0.is_live(j) && t0.is_desc(j, x) {
                    t0.lemma_desc_bound(j, x);
                }
            }
            match t0.parent_at(x) {
                Some(px) => {
                    if t0.is_desc(px as int, x) {
                        t0.lemma_desc_bound(px as int, x);
                    }
                },
                None => {},
            }
        }
        let n_slots = self.nodes.len();
        let mut i = node + 1;
        while i < n_slots
            invariant
                t0.wf(),
                x == node as int,
                t0.is_live(x),
                t0.type_at(x) != ContainerType::Root,
                t0.type_at(x) != ContainerType::Workspace,
                n_slots as int == t0.slot_count(),
                x < i as int <= t0.slot_count(),
                self.slot_count() == t0.slot_count(),
                pxi == (match t0.parent_at(x) {
                    Some(px) => px as int,
                    None => -1,
                }),
                pxi < x,
                (match t0.parent_at(x) {
                    Some(px) => {
                        &&& !t0.is_desc(px as int, x)
                        &&& self.is_live(px as int)
                        &&& Self::same_but_children(
                            self.node_at(px as int),
                            t0.node_at(px as int),
                        )
                        &&& 0 <= kx < t0.kids_at(px as int).len()
                        &&& t0.kids_at(px as int)[kx] == node
                        &&& self.kids_at(px as int) == t0.kids_at(px as int).remove(kx)
                    },
                    None => true,
                }),
                forall|j: int|
                    i as int <= j < t0.slot_count() ==> self.nodes@[j] == t0.nodes@[j],
                forall|j: int|
                    0 <= j < i as int && j != pxi ==> self.nodes@[j] == (if t0.is_live(j)
                        && t0.is_desc(j, x) {
                        None::<Container>
                    } else {
                        t0.nodes@[j]
                    }),
            decreases n_slots - i,
        {
            let par_i = match &self.nodes[i] {
                Some(n) => Some(n.parent),
                None => None,
            };
            proof {
                if par_i is Some {
                    assert(self.nodes@[i as int] == t0.nodes@[i as int]);
                    assert(t0.is_live(i as int));
                    assert(t0.parent_link_ok(i as int));
                }
            }
            proof {
                assert(t0.is_live(x));
                assert(t0.parent_link_ok(x));
                assert(i as int != pxi);
                if par_i matches Some(None) {
                    assert(!t0.is_desc(i as int, x));
                }
            }
            match par_i {
                Some(Some(q)) => {
                    let q_dead = match &self.nodes[q] {
                        Some(_) => false,
                        None => true,
                    };
                    proof {
                        // by the order of the sweep, q is already settled:
                        // its slot is empty exactly when it belongs to the
                        // subtree being destroyed
                        if q as int == pxi {
                            assert(!q_dead);
                            assert(!t0.is_desc(q as int, x));
                        } else {
                            assert(self.nodes@[q as int] == (
                            if t0.is_live(q as int) && t0.is_desc(q as int, x) {
                                None::<Container>
                            } else {
                                t0.nodes@[q as int]
                            }));
                            assert(q_dead == t0.is_desc(q as int, x));
                        }
                        assert(t0.is_desc(i as int, x) == t0.is_desc(q as int, x));
                    }
                    if q_dead {
                        let slot = &mut self.nodes[i];
                        *slot = None;
                    }
                    proof {
                        assert(self.nodes@[i as int] == (if t0.is_live(i as int)
                            && t0.is_desc(i as int, x) {
                            None::<Container>
                        } else {
                            t0.nodes@[i as int]
                        }));
                    }
                },
                _ => {
                    proof {
                        assert(self.nodes@[i as int] == t0.nodes@[i as int]);
                        assert(!(t0.is_live(i as int) && t0.is_desc(i as int, x)));
                    }
                },
            }
            proof {
                assert(self.nodes@[i as int] == (if t0.is_live(i as int) && t0.is_desc(
                    i as int,
                    x,
                ) {
                    None::<Container>
                } else {
                    t0.nodes@[i as int]
                }));
            }
            i = i + 1;
        }
        proof {
            let t1 = *self;
            assert(t0.slot_count() == n_slots as int);
            assert forall|j: int| t1.is_live(j) == (t0.is_live(j) && !t0.is_desc(j, x)) by {
                if 0 <= j < t0.slot_count() {
                    if j == pxi {
                        assert(t1.is_live(j));
                        assert(!t0.is_desc(j, x));
                    } else {
                        assert(t1.nodes@[j] == (if t0.is_live(j) && t0.is_desc(j, x) {
                            None::<Container>
                        } else {
                            t0.nodes@[j]
                        }));
                    }
                } else {
                    if t0.is_desc(j, x) && j != x {
                        t0.lemma_desc_bound(j, x);
                    }
                }
            }
            assert forall|j: int|
                t1.is_live(j) && Some(j as usize) != t0.parent_at(x) implies t1.nodes@[j]
                == t0.nodes@[j] by {
                assert(0 <= j < t0.slot_count());
                assert((j as usize) as int == j);
                assert(j != pxi);
            }
            assert(Self::removed_post(t0, t1, x));
            Self::lemma_wf_after_removal(t0, t1, x);
        }
        Ok(())
    }

    /// Destroying exactly one subtree preserves well-formedness: every
    /// surviving node keeps a surviving parent and surviving children.
    proof fn lemma_wf_after_removal(t0: LayoutTree, t1: LayoutTree, x: int)
        requires
            t0.wf(),
            t0.is_live(x),
            t0.type_at(x) != ContainerType::Root,
            t0.type_at(x) != ContainerType::Workspace,
            Self::removed_post(t0, t1, x),
            t0.slot_count() <= usize::MAX as int,
        ensures
            t1.wf(),
    {
        assert(x != 0);
        assert(!t0.is_desc(0, x));
        assert(t1.is_live(0));
        assert(t1.type_at(0) == t0.type_at(0) && t1.parent_at(0) == t0.parent_at(0)
            && t1.node_at(0).handle == t0.node_at(0).handle) by {
            if t0.parent_at(x) == Some(0usize) {
                assert(Self::same_but_children(t1.node_at(0), t0.node_at(0)));
            } else {
                assert(t1.nodes@[0] == t0.nodes@[0]);
            }
        }
        // the parent of any survivor survives
        assert forall|j: int|
            t1.is_live(j) && (t0.parent_at(j) matches Some(q)) implies !t0.is_desc(
            t0.parent_at(j)->0 as int,
            x,
        ) && t0.parent_at(j)->0 as int != x by {
            let q = t0.parent_at(j)->0 as int;
            assert(t0.parent_link_ok(j));
            if t0.is_desc(q, x) || q == x {
                assert(t0.is_desc(j, x));
            }
        }
        // no surviving children list holds a destroyed node
        assert forall|j: int, m: int|
            t1.is_live(j) && 0 <= m < t1.kids_at(j).len() implies {
                &&& t1.is_live(t1.kids_at(j)[m] as int)
                &&& t1.parent_at(t1.kids_at(j)[m] as int) == Some(j as usize)
                &&& t1.kids_at(j).contains(t1.kids_at(j)[m])
            } by {
            assert(t0.kids_ok(j));
            let e = if Some(j as usize) == t0.parent_at(x) {
                let k = choose|k: int|
                    0 <= k < t0.kids_at(j).len() && t0.kids_at(j)[k] == (x as usize)
                        && t1.kids_at(j) == t0.kids_at(j).remove(k);
                let mo: int = if m < k {
                    m
                } else {
                    m + 1
                };
                assert(t1.kids_at(j)[m] == t0.kids_at(j)[mo]);
                assert(t0.kids_unique(j));
                if t0.kids_at(j)[mo] == (x as usize) {
                    if mo < k {
                        assert(t0.kids_at(j)[mo] != t0.kids_at(j)[k]);
                    } else {
                        assert(t0.kids_at(j)[k] != t0.kids_at(j)[mo]);
                    }
                    assert(false);
                }
                t0.kids_at(j)[mo]
            } else {
                assert(t1.kids_at(j) == t0.kids_at(j));
                if t1.kids_at(j)[m] == (x as usize) {
                    assert(t0.kids_at(j)[m] == (x as usize));
                    assert((x as usize) as int == x);
                    assert(t0.parent_at(x) == Some(j as usize));
                    assert(false);
                }
                t0.kids_at(j)[m]
            };
            assert(t1.kids_at(j)[m] == e);
            assert(t0.is_live(e as int) && t0.parent_at(e as int) == Some(j as usize));
            assert(e != (x as usize));
            if t0.is_desc(e as int, x) {
                assert(t0.is_desc(j, x));
                assert(false);
            }
            assert(t1.is_live(e as int));
            if Some(e) == t0.parent_at(x) {
                assert(Self::same_but_children(t1.node_at(e as int), t0.node_at(e as int)));
            } else {
                assert(t1.nodes@[e as int] == t0.nodes@[e as int]);
            }
            assert(t1.parent_at(e as int) == Some(j as usize));
        }
        assert forall|i: int| t1.is_live(i) implies t1.parent_link_ok(i) by {
            assert(t0.parent_link_ok(i));
            assert(t1.type_at(i) == t0.type_at(i));
            match t0.parent_at(i) {
                Some(q) => {
                    assert(!t0.is_desc(q as int, x) && q as int != x);
                    assert(t1.is_live(q as int));
                    assert(t1.type_at(q as int) == t0.type_at(q as int));
                    // i is still among q's children
                    if Some(q) == t0.parent_at(x) {
                        let k = choose|k: int|
                            0 <= k < t0.kids_at(q as int).len() && t0.kids_at(q as int)[k] == (
                            x as usize) && t1.kids_at(q as int) == t0.kids_at(
                                q as int,
                            ).remove(k);
                        assert(t0.kids_at(q as int).contains(i as usize));
                        let m = choose|m: int|
                            0 <= m < t0.kids_at(q as int).len() && t0.kids_at(q as int)[m] == (
                            i as usize);
                        assert(i != x);
                        assert(m != k);
                        if m < k {
                            assert(t1.kids_at(q as int)[m] == i as usize);
                        } else {
                            assert(t1.kids_at(q as int)[m - 1] == i as usize);
                        }
                        assert(t1.kids_at(q as int).contains(i as usize));
                    } else {
                        assert(t1.kids_at(q as int) == t0.kids_at(q as int));
                    }
                },
                None => {},
            }
        }
        assert forall|i: int| t1.is_live(i) implies t1.kids_ok(i) && t1.kids_unique(i) by {
            assert(t0.kids_unique(i));
            if Some(i as usize) == t0.parent_at(x) {
                let k = choose|k: int|
                    0 <= k < t0.kids_at(i).len() && t0.kids_at(i)[k] == (x as usize)
                        && t1.kids_at(i) == t0.kids_at(i).remove(k);
                assert forall|k1: int, k2: int|
                    0 <= k1 < k2 < t1.kids_at(i).len() implies t1.kids_at(i)[k1] != t1.kids_at(
                        i,
                    )[k2] by {
                    let o1: int = if k1 < k {
                        k1
                    } else {
                        k1 + 1
                    };
                    let o2: int = if k2 < k {
                        k2
                    } else {
                        k2 + 1
                    };
                    assert(t1.kids_at(i)[k1] == t0.kids_at(i)[o1]);
                    assert(t1.kids_at(i)[k2] == t0.kids_at(i)[o2]);
                }
            } else {
                assert(t1.kids_at(i) == t0.kids_at(i));
            }
        }
        assert forall|i: int| t1.is_live(i) implies crate::containers::handle_matches(
            #[trigger] t1.type_at(i),
            t1.node_at(i).handle,
        ) by {
            assert(crate::containers::handle_matches(t0.type_at(i), t0.node_at(i).handle));
        }
        assert forall|i: int|
            t1.is_live(i) && #[trigger] t1.type_at(i)
                == ContainerType::View implies t1.kids_at(i).len() == 0 by {
            assert(t0.type_at(i) == ContainerType::View);
            assert(t0.kids_at(i).len() == 0);
            if Some(i as usize) == t0.parent_at(x) {
                assert(t0.kids_at(i).contains(x as usize)) by {
                    assert(t0.parent_link_ok(x));
                }
                let m = choose|m: int|
                    0 <= m < t0.kids_at(i).len() && t0.kids_at(i)[m] == (x as usize);
                assert(false);
            }
            assert(t1.kids_at(i) == t0.kids_at(i));
        }
        assert forall|i: int|
            t1.is_live(i) && #[trigger] t1.type_at(i)
                == ContainerType::Workspace implies t1.parent_at(i) is Some && t1.node_at(
            i,
        ).handle == t1.node_at(t1.parent_at(i)->0 as int).handle by {
            assert(t0.type_at(i) == ContainerType::Workspace);
            let q = t0.parent_at(i)->0 as int;
            assert(!t0.is_desc(q, x) && q != x);
            assert(t1.is_live(q));
            assert(t1.node_at(q).handle == t0.node_at(q).handle);
        }
    }

    /// Removing a subtree leaves none of its nodes reachable from the
    /// root: every destroyed slot is empty, and an empty slot has no place
    /// in any parent chain.
    pub proof fn lemma_cascade_unreachable(t0: LayoutTree, t1: LayoutTree, x: int, d: int)
        requires
            Self::removed_post(t0, t1, x),
            t0.is_desc(d, x),
            d != 0,
        ensures
            !t1.is_live(d),
            !t1.is_desc(d, 0),
    {
    }

    /// Once a node's subtree has been destroyed, resolving the parent of
    /// any node that belonged to it answers "gone", never a crash.
    pub proof fn lemma_orphan_get_parent(t0: LayoutTree, t1: LayoutTree, x: int, c: int)
        requires
            Self::removed_post(t0, t1, x),
            t0.is_desc(c, x),
        ensures
            t1.spec_parent(c) is None,
    {
    }

    /// Returns true if this container is an ancestor of `b` (the root is
    /// vacuously an ancestor of everything).
    pub fn is_parent_of(&self, a: usize, b: usize) -> (r: bool)
        requires
            self.wf(),
        ensures
            r == (self.is_live(a as int) && (self.type_at(a as int) == ContainerType::Root || (
            a != b && self.is_desc(b as int, a as int)))),
    {
        match self.get_node(a) {
            None => false,
            Some(n) => {
                if n.container_type == ContainerType::Root {
                    true
                } else if a == b {
                    false
                } else {
                    self.is_descendant(b, a)
                }
            },
        }
    }

    /// Returns true if this container is a descendant of `b`.
    pub fn is_child_of(&self, a: usize, b: usize) -> (r: bool)
        requires
            self.wf(),
        ensures
            r == (self.is_live(b as int) && (self.type_at(b as int) == ContainerType::Root || (
            b != a && self.is_desc(a as int, b as int)))),
    {
        self.is_parent_of(b, a)
    }

    /// The nearest ancestor of `i` with the given type, walking the
    /// parent chain upward.
    pub open spec fn spec_ancestor_of_type(self, i: int, t: ContainerType) -> Option<usize>
        decreases i,
    {
        if !self.is_live(i) {
            None
        } else {
            match self.parent_at(i) {
                Some(p) => {
                    if !(0 <= (p as int) < i) {
                        None
                    } else if self.type_at(p as int) == t {
                        Some(p)
                    } else {
                        self.spec_ancestor_of_type(p as int, t)
                    }
                },
                None => None,
            }
        }
    }

    /// Finds the nearest ancestor container with the given type, if there
    /// is any.
    pub fn get_parent_by_type(&self, id: usize, container_type: ContainerType) -> (r: Option<
        usize,
    >)
        requires
            self.wf(),
        ensures
            r == self.spec_ancestor_of_type(id as int, container_type),
    {
        let mut cur = id;
        loop
            invariant
                self.wf(),
                self.spec_ancestor_of_type(id as int, container_type)
                    == self.spec_ancestor_of_type(cur as int, container_type),
            decreases cur,
        {
            if cur >= self.nodes.len() {
                return None;
            }
            let par = match &self.nodes[cur] {
                Some(n) => Some(n.parent),
                None => None,
            };
            match par {
                None => {
                    return None;
                },
                Some(None) => {
                    return None;
                },
                Some(Some(p)) => {
                    proof {
                        assert(self.parent_link_ok(cur as int));
                    }
                    let pt = match &self.nodes[p] {
                        Some(n) => n.container_type,
                        None => ContainerType::Root,
                    };
                    if pt == container_type {
                        return Some(p);
                    }
                    cur = p;
                },
            }
        }
    }

    /// Two nodes that agree on everything but their handle.
    pub open spec fn same_but_handle(a: Container, b: Container) -> bool {
        &&& a.parent == b.parent
        &&& a.children == b.children
        &&& a.container_type == b.container_type
        &&& a.layout == b.layout
        &&& a.visible == b.visible
        &&& a.focused == b.focused
        &&& a.floating == b.floating
    }

    /// The handle with its visibility mask replaced, where it is a view's.
    pub open spec fn set_view_mask(h: Option<Handle>, mask: u32) -> Option<Handle> {
        match h {
            Some(Handle::View(v)) => Some(
                Handle::View(ViewHandle { id: v.id, geometry: v.geometry, mask }),
            ),
            _ => h,
        }
    }

    /// What holds after the views under `top` have been remasked: exactly
    /// the views of that subtree carry the new mask, everything else is
    /// untouched.
    pub open spec fn masked_post(t0: LayoutTree, t1: LayoutTree, top: int, mask: u32) -> bool {
        &&& t1.slot_count() == t0.slot_count()
        &&& forall|j: int| t1.is_live(j) == t0.is_live(j)
        &&& forall|j: int|
            0 <= j < t0.slot_count() && !t0.is_live(j) ==> t1.nodes@[j] == t0.nodes@[j]
        &&& forall|j: int|
            t0.is_live(j) ==> Self::same_but_handle(t1.node_at(j), t0.node_at(j))
        &&& forall|j: int|
            t0.is_live(j) && !(t0.type_at(j) == ContainerType::View && t0.is_desc(j, top))
                ==> t1.node_at(j).handle == t0.node_at(j).handle
        &&& forall|j: int|
            t0.is_live(j) && t0.type_at(j) == ContainerType::View && t0.is_desc(j, top)
                ==> t1.node_at(j).handle == Self::set_view_mask(t0.node_at(j).handle, mask)
    }

    /// Which subtree a node belongs to depends only on liveness and parent
    /// links, which a remasking never touches.
    pub(crate) proof fn lemma_desc_same_skeleton(t0: LayoutTree, t1: LayoutTree, i: int, a: int)
        requires
            t1.slot_count() == t0.slot_count(),
            forall|j: int| t1.is_live(j) == t0.is_live(j),
            forall|j: int| t0.is_live(j) ==> t1.parent_at(j) == t0.parent_at(j),
        ensures
            t1.is_desc(i, a) == t0.is_desc(i, a),
        decreases i,
    {
        if i != a && t0.is_live(i) {
            match t0.parent_at(i) {
                Some(p) => {
                    if 0 <= (p as int) < i {
                        Self::lemma_desc_same_skeleton(t0, t1, p as int, a);
                    }
                },
                None => {},
            }
        }
    }

    /// The subtree of a childless node is that node alone: nothing else
    /// can reach it through a parent chain.
    pub proof fn lemma_childless_desc(self, v: int, j: int)
        requires
            self.wf(),
            self.is_live(v),
            self.kids_at(v).len() == 0,
        ensures
            self.is_desc(j, v) == (j == v),
        decreases j,
    {
        if j != v && self.is_desc(j, v) {
            match self.parent_at(j) {
                Some(p) => {
                    if p as int == v {
                        assert(self.parent_link_ok(j));
                        assert(self.kids_at(v).contains(j as usize));
                        let m = choose|m: int|
                            0 <= m < self.kids_at(v).len() && self.kids_at(v)[m] == (
                            j as usize);
                        assert(false);
                    } else {
                        self.lemma_childless_desc(v, p as int);
                    }
                },
                None => {},
            }
        }
    }

    /// Sets the visibility mask of every view in the subtree rooted at
    /// `top` to `mask`, leaving all other state alone.
    pub fn set_view_masks_under(&mut self, top: usize, mask: u32)
        requires
            old(self).wf(),
        ensures
            final(self).wf(),
            Self::masked_post(*old(self), *final(self), top as int, mask),
    {
        let ghost t0 = *old(self);
        let n_slots = self.nodes.len();
        let mut i: usize = 0;
        while i < n_slots
            invariant
                t0.wf(),
                self.wf(),
                n_slots as int == t0.slot_count(),
                0 <= i as int <= t0.slot_count(),
                self.slot_count() == t0.slot_count(),
                forall|j: int| self.is_live(j) == t0.is_live(j),
                forall|j: int|
                    t0.is_live(j) ==> Self::same_but_handle(self.node_at(j), t0.node_at(j)),
                forall|j: int|
                    i as int <= j < t0.slot_count() ==> self.nodes@[j] == t0.nodes@[j],
                forall|j: int|
                    0 <= j < i as int && t0.is_live(j) && !(t0.type_at(j)
                        == ContainerType::View && t0.is_desc(j, top as int))
                        ==> self.nodes@[j] == t0.nodes@[j],
                forall|j: int|
                    0 <= j < i as int && t0.is_live(j) && t0.type_at(j) == ContainerType::View
                        && t0.is_desc(j, top as int) ==> self.node_at(j).handle
                        == Self::set_view_mask(t0.node_at(j).handle, mask),
            decreases n_slots - i,
        {
            let vh = match &self.nodes[i] {
                Some(n) => {
                    if n.container_type == ContainerType::View {
                        match n.handle {
                            Some(Handle::View(v)) => Some(v),
                            _ => None,
                        }
                    } else {
                        None
                    }
                },
                None => None,
            };
            match vh {
                Some(v) => {
                    let in_subtree = self.is_descendant(i, top);
                    proof {
                        Self::lemma_desc_same_skeleton(t0, *self, i as int, top as int);
                    }
                    if in_subtree {
                        match &mut self.nodes[i] {
                            Some(n) => {
                                n.handle = Some(
                                    Handle::View(ViewHandle { id: v.id, geometry: v.geometry, mask }),
                                );
                            },
                            None => {},
                        }
                        proof {
                            assert forall|j: int| self.is_live(j) == t0.is_live(j) by {}
                            Self::lemma_wf_relabel(t0, *self);
                        }
                    }
                },
                None => {},
            }
            i = i + 1;
        }
    }
}

} // verus!
