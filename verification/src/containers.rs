//! Node types of the layout tree: type tags, layout modes, surface handles,
//! and the `Container` record that makes up every node of the tree.

use vstd::prelude::*;

verus! {

/// The kind of a node in the layout tree.
#[derive(Debug, Clone, Copy, PartialEq, Eq, Structural)]
pub enum ContainerType {
    /// Root container, only one exists per tree.
    Root,
    /// A monitor.
    Output,
    /// A workspace.
    Workspace,
    /// A container, houses views and other containers.
    Container,
    /// A view (window).
    View,
}

/// Layout mode of a container. Stored, not yet interpreted by this core.
#[derive(Debug, Clone, Copy, PartialEq, Eq, Structural)]
pub enum Layout {
    Untiled,
    Horizontal,
    Vertical,
    Stacked,
    Tabbed,
    Floating,
}

/// A position on the screen.
#[derive(Debug, Clone, Copy, PartialEq, Eq, Structural)]
pub struct Point {
    pub x: i32,
    pub y: i32,
}

/// A width and height in pixels.
#[derive(Debug, Clone, Copy, PartialEq, Eq, Structural)]
pub struct Size {
    pub w: u32,
    pub h: u32,
}

/// A rectangle on the screen.
#[derive(Debug, Clone, Copy, PartialEq, Eq, Structural)]
pub struct Geometry {
    pub origin: Point,
    pub size: Size,
}

/// The capability standing for one physical output (monitor): its identity
/// and the resolution captured when the output was attached.
#[derive(Debug, Clone, Copy, PartialEq, Eq, Structural)]
pub struct OutputHandle {
    pub id: u64,
    pub resolution: Size,
}

/// The capability standing for one window surface: its identity, its
/// geometry, and the visibility mask under which it is composited.
#[derive(Debug, Clone, Copy, PartialEq, Eq, Structural)]
pub struct ViewHandle {
    pub id: u64,
    pub geometry: Geometry,
    pub mask: u32,
}

/// The displayable unit a node wraps, if any: an output (monitor) or a
/// view (window) surface.
#[derive(Debug, Clone, Copy, PartialEq, Eq, Structural)]
pub enum Handle {
    View(ViewHandle),
    Output(OutputHandle),
}

/// Which parent types may hold a child of a given type. This is the single
/// table of legal tree edges; every constructor and `add_child` checks it.
pub open spec fn spec_can_attach(child: ContainerType, parent: ContainerType) -> bool {
    match child {
        ContainerType::Root => false,
        ContainerType::Output => parent == ContainerType::Root,
        ContainerType::Workspace => parent == ContainerType::Output,
        ContainerType::Container => parent == ContainerType::Workspace
            || parent == ContainerType::Container,
        ContainerType::View => parent == ContainerType::Workspace
            || parent == ContainerType::Container,
    }
}

/// Runtime check of the legal-edge table.
pub fn can_attach(child: ContainerType, parent: ContainerType) -> (r: bool)
    ensures
        r == spec_can_attach(child, parent),
{
    match child {
        ContainerType::Root => false,
        ContainerType::Output => parent == ContainerType::Root,
        ContainerType::Workspace => parent == ContainerType::Output,
        ContainerType::Container => parent == ContainerType::Workspace
            || parent == ContainerType::Container,
        ContainerType::View => parent == ContainerType::Workspace
            || parent == ContainerType::Container,
    }
}

/// The handle a node of the given type must carry: none on the root, the
/// owning output's handle on outputs, workspaces and containers, and the
/// window's own surface handle on views.
pub open spec fn handle_matches(t: ContainerType, h: Option<Handle>) -> bool {
    match t {
        ContainerType::Root => h is None,
        ContainerType::Output => h matches Some(Handle::Output(_)),
        ContainerType::Workspace => h matches Some(Handle::Output(_)),
        ContainerType::Container => h matches Some(Handle::Output(_)),
        ContainerType::View => h matches Some(Handle::View(_)),
    }
}

/// One node of the layout tree. Parent and children are slot indices into
/// the tree's node table; the parent link is a back-reference that resolving
/// code must treat as possibly stale (the parent may have been destroyed).
#[derive(Debug, Clone)]
#[verifier::ext_equal]
pub struct Container {
    pub handle: Option<Handle>,
    pub parent: Option<usize>,
    pub children: Vec<usize>,
    pub container_type: ContainerType,
    pub layout: Layout,
    pub visible: bool,
    pub focused: bool,
    pub floating: bool,
}

impl Container {
    /// Gets the type of the container.
    pub fn get_type(&self) -> (t: ContainerType)
        ensures
            t == self.container_type,
    {
        self.container_type
    }

    /// Gets the handle of the container. This is either an output (a
    /// monitor) or a view (a window); the root carries none.
    pub fn get_handle(&self) -> (h: Option<Handle>)
        ensures
            h == self.handle,
    {
        self.handle
    }

    /// Returns true if this container is focused.
    pub fn is_focused(&self) -> (r: bool)
        ensures
            r == self.focused,
    {
        self.focused
    }

    /// Returns true if this is the root container.
    pub fn is_root(&self) -> (r: bool)
        ensures
            r == (self.container_type == ContainerType::Root),
    {
        self.container_type == ContainerType::Root
    }

    /// Gets the visibility of the container.
    pub fn get_visibility(&self) -> (r: bool)
        ensures
            r == self.visible,
    {
        self.visible
    }

    /// Sets this container to the given visibility.
    pub fn set_visibility(&mut self, visibility: bool)
        ensures
            final(self).visible == visibility,
            final(self).handle == old(self).handle,
            final(self).parent == old(self).parent,
            final(self).children == old(self).children,
            final(self).container_type == old(self).container_type,
            final(self).layout == old(self).layout,
            final(self).focused == old(self).focused,
            final(self).floating == old(self).floating,
    {
        self.visible = visibility;
    }

    /// Gets the layout mode of the container.
    pub fn get_layout(&self) -> (l: Layout)
        ensures
            l == self.layout,
    {
        self.layout
    }

    /// The children slots of this container, in stacking order.
    /// Views never have children, by definition rather than by error.
    pub fn get_children(&self) -> (r: Option<&Vec<usize>>)
        ensures
            match r {
                Some(v) => self.container_type != ContainerType::View && v@ == self.children@,
                None => self.container_type == ContainerType::View,
            },
    {
        if self.container_type == ContainerType::View {
            None
        } else {
            Some(&self.children)
        }
    }

    /// The width and height of the displayable unit this node wraps: an
    /// output's resolution, or a view's surface size. None for node types
    /// without a handle.
    pub fn get_dimensions(&self) -> (r: Option<(u32, u32)>)
        ensures
            r == match self.handle {
                Some(Handle::Output(o)) => Some((o.resolution.w, o.resolution.h)),
                Some(Handle::View(v)) => Some((v.geometry.size.w, v.geometry.size.h)),
                None => None::<(u32, u32)>,
            },
    {
        match self.handle {
            Some(Handle::Output(o)) => Some((o.resolution.w, o.resolution.h)),
            Some(Handle::View(v)) => Some((v.geometry.size.w, v.geometry.size.h)),
            None => None,
        }
    }

    /// The position of this node on the screen: a view's surface origin.
    /// None for node types without a handle, and always None for an output
    /// (an output has no position within itself).
    pub fn get_position(&self) -> (r: Option<(i32, i32)>)
        ensures
            r == match self.handle {
                Some(Handle::Output(_)) => None::<(i32, i32)>,
                Some(Handle::View(v)) => Some((v.geometry.origin.x, v.geometry.origin.y)),
                None => None::<(i32, i32)>,
            },
    {
        match self.handle {
            Some(Handle::Output(_)) => None,
            Some(Handle::View(v)) => Some((v.geometry.origin.x, v.geometry.origin.y)),
            None => None,
        }
    }
}

} // verus!
