use way_cooler::containers::{
    ContainerType, Geometry, Handle, OutputHandle, Point, Size, ViewHandle,
};
use way_cooler::layout::WorkspaceManager;
use way_cooler::tree::TreeError;

fn output_1920x1080() -> OutputHandle {
    OutputHandle {
        id: 1,
        resolution: Size { w: 1920, h: 1080 },
    }
}

fn surface(id: u64) -> ViewHandle {
    ViewHandle {
        id,
        geometry: Geometry {
            origin: Point { x: 0, y: 0 },
            size: Size { w: 800, h: 600 },
        },
        mask: 1,
    }
}

fn mask_of(manager: &WorkspaceManager, node: usize) -> u32 {
    match manager.tree.get_node(node).unwrap().get_handle() {
        Some(Handle::View(v)) => v.mask,
        _ => panic!("node {} is not a view", node),
    }
}

#[test]
fn add_output_creates_two_workspaces() {
    let mut manager = WorkspaceManager::new();
    let out = manager.add_output(output_1920x1080());
    let out_node = manager.tree.get_node(out).unwrap();
    assert_eq!(out_node.get_type(), ContainerType::Output);
    assert_eq!(out_node.get_dimensions(), Some((1920, 1080)));
    let workspaces = out_node.get_children().unwrap().clone();
    assert_eq!(workspaces.len(), 2);
    for w in workspaces {
        let ws = manager.tree.get_node(w).unwrap();
        assert_eq!(ws.get_type(), ContainerType::Workspace);
        assert_eq!(ws.get_handle(), out_node.get_handle());
    }
}

#[test]
fn add_workspace_appends_to_first_output() {
    let mut manager = WorkspaceManager::new();
    assert_eq!(manager.add_workspace(), Err(TreeError::NotFound));
    let out = manager.add_output(output_1920x1080());
    let w = manager.add_workspace().unwrap();
    assert_eq!(
        manager.tree.get_node(w).unwrap().get_type(),
        ContainerType::Workspace
    );
    assert_eq!(
        manager.tree.get_node(out).unwrap().get_children().unwrap().len(),
        3
    );
}

#[test]
fn add_view_lands_in_active_workspace() {
    let mut manager = WorkspaceManager::new();
    assert_eq!(manager.add_view(surface(7)), Err(TreeError::NotFound));
    let out = manager.add_output(output_1920x1080());
    let v = manager.add_view(surface(7)).unwrap();
    let ws0 = manager.tree.get_node(out).unwrap().get_children().unwrap()[0];
    assert_eq!(manager.tree.get_parent(v), Some(ws0));
    assert_eq!(
        manager.tree.get_node(v).unwrap().get_type(),
        ContainerType::View
    );
}

#[test]
fn workspace_switch_scenario() {
    // one output at 1920x1080, two default workspaces, one view on the
    // first: switching away hides the view's surface, switching back
    // shows it again
    let mut manager = WorkspaceManager::new();
    let out = manager.add_output(output_1920x1080());
    let surface_a = surface(7);
    let v = manager.add_view(surface_a).unwrap();
    let workspaces = manager
        .tree
        .get_node(out)
        .unwrap()
        .get_children()
        .unwrap()
        .clone();
    let ws0 = workspaces[0];
    let ws1 = workspaces[1];
    assert_eq!(manager.tree.get_parent(v), Some(ws0));
    assert!(manager
        .tree
        .get_node(ws1)
        .unwrap()
        .get_children()
        .unwrap()
        .is_empty());

    assert_eq!(manager.switch_workspace(1), Ok(()));
    assert_eq!(manager.active_workspace, 1);
    assert_eq!(mask_of(&manager, v), 0);

    assert_eq!(manager.switch_workspace(0), Ok(()));
    assert_eq!(manager.active_workspace, 0);
    assert_eq!(mask_of(&manager, v), 1);
}

#[test]
fn workspace_switch_is_idempotent() {
    let mut manager = WorkspaceManager::new();
    let _out = manager.add_output(output_1920x1080());
    let v0 = manager.add_view(surface(7)).unwrap();
    manager.switch_workspace(1).unwrap();
    let v1 = manager.add_view(surface(8)).unwrap();

    manager.switch_workspace(0).unwrap();
    let masks_first = (mask_of(&manager, v0), mask_of(&manager, v1));
    manager.switch_workspace(0).unwrap();
    let masks_second = (mask_of(&manager, v0), mask_of(&manager, v1));
    assert_eq!(masks_first, (1, 0));
    assert_eq!(masks_second, masks_first);
}

#[test]
fn workspace_switch_bad_index() {
    let mut manager = WorkspaceManager::new();
    assert_eq!(manager.switch_workspace(0), Err(TreeError::NotFound));
    manager.add_output(output_1920x1080());
    assert_eq!(manager.switch_workspace(2), Err(TreeError::NotFound));
    assert_eq!(manager.active_workspace, 0);
}

#[test]
fn remove_view_twice_reports_gone() {
    // the first unmap removes the view; a second unmap of the same handle
    // finds nothing, and the first removal's effects stand
    let mut manager = WorkspaceManager::new();
    let out = manager.add_output(output_1920x1080());
    let surface_a = surface(7);
    let keep = manager.add_view(surface(8)).unwrap();
    let v = manager.add_view(surface_a).unwrap();

    assert!(manager.remove_view(&surface_a));
    assert!(manager.tree.get_node(v).is_none());
    assert!(manager.tree.get_node(keep).is_some());

    assert!(!manager.remove_view(&surface_a));
    assert!(manager.tree.get_node(v).is_none());
    assert!(manager.tree.get_node(keep).is_some());
    let ws0 = manager.tree.get_node(out).unwrap().get_children().unwrap()[0];
    assert_eq!(
        manager.tree.get_node(ws0).unwrap().get_children().unwrap().len(),
        1
    );
}

#[test]
fn no_focus_chain_means_no_focused_workspace() {
    let mut manager = WorkspaceManager::new();
    manager.add_output(output_1920x1080());
    assert_eq!(manager.get_focused_workspace(), None);
}
