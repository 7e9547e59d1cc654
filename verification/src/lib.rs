//! Layout engine of a tiling window manager: a tree that models the
//! display hierarchy (root, outputs, workspaces, containers, views) and
//! the structural rules under which windows are organized, focused,
//! shown, and hidden.
//!
//! The tree's structural invariants live in [`tree::LayoutTree::wf`]:
//! exactly one root; outputs only under the root; workspaces only under
//! outputs, inheriting the output's handle, and never detachable; views
//! never under the root and never with children of their own; every
//! parent back-reference matched by exactly one entry in that parent's
//! children list. Every public operation requires a well-formed tree and
//! ensures one, so any sequence of operations preserves every invariant.
//!
//! [`layout::WorkspaceManager`] holds the tree together with the active
//! workspace index and provides the operations a window manager's event
//! and command layers call.

pub mod border;
pub mod client;
pub mod containers;
pub mod draw;
pub mod layout;
pub mod tree;
