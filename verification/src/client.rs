//! The module that controls access to the registry.
//!
//! Permissions for clients live here, which can either be `Read` or
//! `Write` (which includes the ability to read). A permission is
//! associated with a canonical category name, with the `Client`
//! controlling all permissions for known categories. A `Client` may not
//! know about any given category, effectively making those permissions
//! absent, because it does not even know that the category exists.

use vstd::prelude::*;

verus! {

/// The mapping of category name to the permissions the client has for
/// that category.
pub type AccessMapping = Vec<(String, Permissions)>;

/// The different ways the `Client` can fail trying to access a category.
#[derive(Clone, Debug)]
pub enum ClientErr {
    /// A category does not exist, from the client's perspective.
    DoesNotExist(String),
    /// The client has insufficient permissions for that operation on the
    /// provided category.
    InsufficientPermissions,
}

/// The different ways a client can access the data in a category. If a
/// permission for a particular category is omitted, the client by
/// definition cannot access the category.
#[derive(Clone, Copy, Debug, Eq, PartialEq, Structural)]
pub enum Permissions {
    /// The client can read all data associated with a category.
    Read,
    /// The client can read and write to all data associated with a
    /// category.
    Write,
}

/// The way a client program accesses the categories in the registry.
/// Has a mapping of known categories and their associated permissions.
#[derive(Clone, Debug)]
pub struct Client {
    pub access: AccessMapping,
}

impl Client {
    /// Makes a new client, with the given permissions.
    pub fn new(access: AccessMapping) -> (c: Client)
        ensures
            c.access@ == access@,
    {
        Client { access }
    }

    /// The categories that the client can access, with their permissions.
    pub fn categories(&self) -> (r: &AccessMapping)
        ensures
            r@ == self.access@,
    {
        &self.access
    }
}

} // verus!
