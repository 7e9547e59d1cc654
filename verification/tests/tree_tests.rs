use way_cooler::containers::{
    ContainerType, Geometry, Handle, Layout, OutputHandle, Point, Size, ViewHandle,
};
use way_cooler::tree::{LayoutTree, TreeError};

fn output_handle(id: u64) -> OutputHandle {
    OutputHandle {
        id,
        resolution: Size { w: 1920, h: 1080 },
    }
}

fn view_handle(id: u64) -> ViewHandle {
    ViewHandle {
        id,
        geometry: Geometry {
            origin: Point { x: 10, y: 20 },
            size: Size { w: 640, h: 480 },
        },
        mask: 1,
    }
}

#[test]
fn constructors_build_legal_edges() {
    let mut tree = LayoutTree::new_root();
    let out = tree.new_output(0, output_handle(1));
    let ws = tree.new_workspace(out);
    let cont = tree.new_container(ws);
    let view = tree.new_view(ws, view_handle(7));

    assert_eq!(tree.get_node(0).unwrap().get_type(), ContainerType::Root);
    assert_eq!(tree.get_node(out).unwrap().get_type(), ContainerType::Output);
    assert_eq!(
        tree.get_node(ws).unwrap().get_type(),
        ContainerType::Workspace
    );
    assert_eq!(
        tree.get_node(cont).unwrap().get_type(),
        ContainerType::Container
    );
    assert_eq!(tree.get_node(view).unwrap().get_type(), ContainerType::View);

    // the workspace and container inherit the output's handle
    let oh = tree.get_node(out).unwrap().get_handle();
    assert_eq!(tree.get_node(ws).unwrap().get_handle(), oh);
    assert_eq!(tree.get_node(cont).unwrap().get_handle(), oh);

    // parents resolve upward; the root has none
    assert_eq!(tree.get_parent(0), None);
    assert_eq!(tree.get_parent(out), Some(0));
    assert_eq!(tree.get_parent(ws), Some(out));
    assert_eq!(tree.get_parent(cont), Some(ws));
    assert_eq!(tree.get_parent(view), Some(ws));
}

#[test]
fn geometry_is_derived_from_handles() {
    let mut tree = LayoutTree::new_root();
    let out = tree.new_output(0, output_handle(1));
    let ws = tree.new_workspace(out);
    let view = tree.new_view(ws, view_handle(7));

    assert_eq!(tree.get_node(0).unwrap().get_dimensions(), None);
    assert_eq!(
        tree.get_node(out).unwrap().get_dimensions(),
        Some((1920, 1080))
    );
    assert_eq!(
        tree.get_node(view).unwrap().get_dimensions(),
        Some((640, 480))
    );
    // an output has no position within itself
    assert_eq!(tree.get_node(out).unwrap().get_position(), None);
    assert_eq!(tree.get_node(view).unwrap().get_position(), Some((10, 20)));
    assert_eq!(tree.get_node(0).unwrap().get_position(), None);
}

#[test]
fn views_report_no_children() {
    let mut tree = LayoutTree::new_root();
    let out = tree.new_output(0, output_handle(1));
    let ws = tree.new_workspace(out);
    let view = tree.new_view(ws, view_handle(7));
    assert!(tree.get_node(view).unwrap().get_children().is_none());
    assert_eq!(tree.get_node(ws).unwrap().get_children().unwrap().len(), 1);
}

#[test]
fn sibling_promotion() {
    // a view made under a container joins the container's parent instead,
    // while a view made under a workspace stays a direct child
    let mut tree = LayoutTree::new_root();
    let out = tree.new_output(0, output_handle(1));
    let ws = tree.new_workspace(out);
    let cont = tree.new_container(ws);
    let promoted = tree.new_view(cont, view_handle(7));
    let direct = tree.new_view(ws, view_handle(8));

    assert_eq!(tree.get_parent(promoted), Some(ws));
    assert!(tree.get_node(cont).unwrap().get_children().unwrap().is_empty());
    assert_eq!(tree.get_parent(direct), Some(ws));
    assert_eq!(
        tree.get_node(ws).unwrap().get_children().as_ref().unwrap(),
        &&vec![cont, promoted, direct]
    );
}

#[test]
fn add_child_rejects_illegal_edges() {
    let mut tree = LayoutTree::new_root();
    let out = tree.new_output(0, output_handle(1));
    let ws = tree.new_workspace(out);
    let cont = tree.new_container(ws);
    let view = tree.new_view(ws, view_handle(7));

    // everything here is already attached
    assert_eq!(tree.add_child(cont, view), Err(TreeError::InvalidEdge));

    // detach the view, then try to hang it under places it may not go
    let probe = tree.get_node(view).unwrap().clone();
    let freed = tree.remove_child(ws, &probe);
    assert_eq!(freed, Ok(view));
    assert_eq!(tree.add_child(view, cont), Err(TreeError::InvalidEdge));
    assert_eq!(tree.add_child(0, view), Err(TreeError::InvalidEdge));
    assert_eq!(tree.add_child(out, view), Err(TreeError::InvalidEdge));
    // and a legal reattachment under the container works
    assert_eq!(tree.add_child(cont, view), Ok(()));
    assert_eq!(tree.get_parent(view), Some(cont));
}

#[test]
fn add_child_missing_nodes() {
    let mut tree = LayoutTree::new_root();
    let out = tree.new_output(0, output_handle(1));
    assert_eq!(tree.add_child(out, 99), Err(TreeError::NotFound));
    assert_eq!(tree.add_child(99, out), Err(TreeError::NotFound));
}

#[test]
fn add_sibling_rules() {
    let mut tree = LayoutTree::new_root();
    let out = tree.new_output(0, output_handle(1));
    let ws = tree.new_workspace(out);
    let cont = tree.new_container(ws);
    let view = tree.new_view(ws, view_handle(7));

    // the root has no parent to insert relative to
    assert_eq!(tree.add_sibling(0, view), Err(TreeError::RootForbidden));

    // a detached view can be added as a sibling of the container
    let node = tree.get_node(view).unwrap().clone();
    tree.remove_child(ws, &node).unwrap();
    assert_eq!(tree.add_sibling(cont, view), Ok(()));
    assert_eq!(tree.get_parent(view), Some(ws));
}

#[test]
fn remove_container_cascades() {
    // removing a container destroys every node beneath it
    let mut tree = LayoutTree::new_root();
    let out = tree.new_output(0, output_handle(1));
    let ws = tree.new_workspace(out);
    let cont = tree.new_container(ws);
    let inner = tree.new_container(cont);
    let view_a = tree.new_view(inner, view_handle(7));
    let view_b = tree.new_view(inner, view_handle(8));

    assert_eq!(tree.remove_container(cont), Ok(()));
    assert!(tree.get_node(cont).is_none());
    assert!(tree.get_node(inner).is_none());
    assert!(tree.get_node(view_a).is_none());
    assert!(tree.get_node(view_b).is_none());
    // the rest of the tree survives
    assert!(tree.get_node(ws).is_some());
    assert!(tree.get_node(out).is_some());
    assert!(tree
        .get_node(ws)
        .unwrap()
        .get_children()
        .unwrap()
        .is_empty());
    // and none of the removed slots is anyone's descendant any more
    assert!(!tree.is_parent_of(ws, view_a));
}

#[test]
fn orphan_get_parent_is_none() {
    // destroying a node leaves previously resolved children answering
    // "no parent", not crashing
    let mut tree = LayoutTree::new_root();
    let out = tree.new_output(0, output_handle(1));
    let ws = tree.new_workspace(out);
    let cont = tree.new_container(ws);
    let view = tree.new_view(cont, view_handle(7));
    let inner = tree.new_container(cont);

    assert_eq!(tree.get_parent(inner), Some(cont));
    tree.remove_container(cont).unwrap();
    assert_eq!(tree.get_parent(inner), None);
    assert_eq!(tree.get_parent(cont), None);
    // the promoted view sat under the workspace, so it survives
    assert_eq!(tree.get_parent(view), Some(ws));
}

#[test]
fn remove_guards_root_and_workspace() {
    let mut tree = LayoutTree::new_root();
    let out = tree.new_output(0, output_handle(1));
    let ws = tree.new_workspace(out);
    assert_eq!(tree.remove_container(0), Err(TreeError::RootForbidden));
    assert_eq!(
        tree.remove_container(ws),
        Err(TreeError::WorkspaceForbidden)
    );
    assert_eq!(tree.remove_container(99), Err(TreeError::NotFound));
    // a workspace cannot leave by positional removal either
    assert_eq!(
        tree.remove_child_at(out, 0),
        Err(TreeError::WorkspaceForbidden)
    );
}

#[test]
fn remove_child_at_detaches() {
    let mut tree = LayoutTree::new_root();
    let out = tree.new_output(0, output_handle(1));
    let ws = tree.new_workspace(out);
    let cont = tree.new_container(ws);
    let view = tree.new_view(ws, view_handle(7));

    assert_eq!(tree.remove_child_at(ws, 1), Ok(view));
    // the detached node is still a valid tree of its own
    assert!(tree.get_node(view).is_some());
    assert_eq!(tree.get_parent(view), None);
    assert_eq!(
        tree.get_node(ws).unwrap().get_children().as_ref().unwrap(),
        &&vec![cont]
    );
}

#[test]
fn remove_child_matches_by_type() {
    let mut tree = LayoutTree::new_root();
    let out = tree.new_output(0, output_handle(1));
    let ws = tree.new_workspace(out);
    let cont_a = tree.new_container(ws);
    let _cont_b = tree.new_container(ws);
    let view = tree.new_view(ws, view_handle(7));

    // structural equality is by node type: the first container matches
    let probe = tree.get_node(cont_a).unwrap().clone();
    assert_eq!(tree.remove_child(ws, &probe), Ok(cont_a));

    // no view child left under the output
    let view_probe = tree.get_node(view).unwrap().clone();
    assert_eq!(
        tree.remove_child(out, &view_probe),
        Err(TreeError::NotFound)
    );

    // workspaces may not be matched out of their output
    let ws_probe = tree.get_node(ws).unwrap().clone();
    assert_eq!(
        tree.remove_child(out, &ws_probe),
        Err(TreeError::WorkspaceForbidden)
    );
}

#[test]
fn ancestry_queries() {
    let mut tree = LayoutTree::new_root();
    let out = tree.new_output(0, output_handle(1));
    let ws = tree.new_workspace(out);
    let cont = tree.new_container(ws);
    let view = tree.new_view(cont, view_handle(7));

    // the root is vacuously everyone's ancestor
    assert!(tree.is_parent_of(0, view));
    assert!(tree.is_parent_of(ws, view));
    assert!(tree.is_parent_of(out, ws));
    assert!(!tree.is_parent_of(cont, view)); // the view was promoted
    assert!(!tree.is_parent_of(view, ws));
    assert!(tree.is_child_of(view, ws));
    assert!(!tree.is_child_of(ws, view));

    assert_eq!(
        tree.get_parent_by_type(view, ContainerType::Output),
        Some(out)
    );
    assert_eq!(
        tree.get_parent_by_type(cont, ContainerType::Root),
        Some(0)
    );
    assert_eq!(tree.get_parent_by_type(0, ContainerType::Output), None);
}

#[test]
fn visibility_flag() {
    let mut tree = LayoutTree::new_root();
    let out = tree.new_output(0, output_handle(1));
    assert!(!tree.get_node(out).unwrap().get_visibility());
    assert!(tree.set_visibility(out, true));
    assert!(tree.get_node(out).unwrap().get_visibility());
    assert!(!tree.set_visibility(99, true));

    // the node record itself carries the same flag
    let mut node = tree.get_node(out).unwrap().clone();
    node.set_visibility(false);
    assert!(!node.get_visibility());
}

#[test]
fn focus_flags_start_clear() {
    let mut tree = LayoutTree::new_root();
    let out = tree.new_output(0, output_handle(1));
    assert!(!tree.get_node(0).unwrap().is_focused());
    assert!(!tree.get_node(out).unwrap().is_focused());
    assert!(tree.get_node(0).unwrap().is_root());
    assert!(!tree.get_node(out).unwrap().is_root());
    match tree.get_node(out).unwrap().get_handle() {
        Some(Handle::Output(o)) => assert_eq!(o.id, 1),
        _ => panic!("output node must carry an output handle"),
    }
    // the layout mode is stored, not yet interpreted: new nodes start bare
    assert_eq!(tree.get_node(out).unwrap().get_layout(), Layout::Untiled);
}

/// After any sequence of legal operations, the tree keeps its shape:
/// every live node's children resolve back to it, node types pair
/// legally with their parents' types, workspaces stay attached, and
/// views stay childless.
fn check_structure(tree: &LayoutTree) {
    let slots = tree.nodes.len();
    for id in 0..slots {
        let node = match tree.get_node(id) {
            Some(n) => n,
            None => continue,
        };
        let t = node.get_type();
        if let Some(children) = node.get_children() {
            for &c in children.iter() {
                assert_eq!(tree.get_parent(c), Some(id));
            }
        } else {
            assert_eq!(t, ContainerType::View);
        }
        match tree.get_parent(id) {
            Some(p) => {
                let pt = tree.get_node(p).unwrap().get_type();
                match t {
                    ContainerType::Root => panic!("the root has no parent"),
                    ContainerType::Output => assert_eq!(pt, ContainerType::Root),
                    ContainerType::Workspace => assert_eq!(pt, ContainerType::Output),
                    ContainerType::Container | ContainerType::View => assert!(
                        pt == ContainerType::Workspace || pt == ContainerType::Container
                    ),
                }
            }
            None => {
                // the root, a destroyed slot, or a detached node
                assert_ne!(t, ContainerType::Workspace);
            }
        }
    }
}

#[test]
fn random_operation_sequences_keep_invariants() {
    let mut seed: u64 = 0x2545F4914F6CDD1D;
    let mut next = move || {
        seed ^= seed << 13;
        seed ^= seed >> 7;
        seed ^= seed << 17;
        seed
    };
    let mut tree = LayoutTree::new_root();
    let out = tree.new_output(0, output_handle(1));
    let ws = tree.new_workspace(out);
    let mut spots = vec![ws];
    for step in 0..200u64 {
        let slots = tree.nodes.len();
        match next() % 4 {
            0 => {
                let parent = spots[(next() as usize) % spots.len()];
                if tree.get_node(parent).is_some() {
                    spots.push(tree.new_container(parent));
                }
            }
            1 => {
                let parent = spots[(next() as usize) % spots.len()];
                if tree.get_node(parent).is_some() {
                    tree.new_view(parent, view_handle(step));
                }
            }
            2 => {
                let target = (next() as usize) % slots;
                let _ = tree.remove_container(target);
            }
            _ => {
                let target = (next() as usize) % slots;
                let parent = spots[(next() as usize) % spots.len()];
                let probe = match tree.get_node(target) {
                    Some(n) => n.clone(),
                    None => continue,
                };
                if tree.get_node(parent).is_some() {
                    let _ = tree.remove_child(parent, &probe);
                }
            }
        }
        check_structure(&tree);
    }
}
