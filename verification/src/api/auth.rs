use vstd::prelude::*;
use crate::engine::names::same_name;

verus! {

/// What a caller of the metrics interface may do.
#[derive(Clone, Copy, Debug, PartialEq, Eq, Structural)]
pub enum Role {
    Admin,
    Viewer,
}

/// An authenticated caller.
#[derive(Clone, Copy, Debug)]
pub struct User {
    pub role: Role,
}

/// The role that a bearer token gives: that of the administrator where it is
/// the administrator's key, else that of a viewer where it is the viewer's
/// key, else none.
pub open spec fn role_of(token: Seq<char>, admin_key: Seq<char>, viewer_key: Seq<char>) -> Option<
    Role,
> {
    if token == admin_key {
        Some(Role::Admin)
    } else if token == viewer_key {
        Some(Role::Viewer)
    } else {
        None
    }
}

impl User {
    /// The user that a bearer token stands for, if any.
    pub fn from_token(token: &str, admin_key: &str, viewer_key: &str) -> (user: Option<User>)
        ensures
            match user {
                Some(u) => role_of(token@, admin_key@, viewer_key@) == Some(u.role),
                None => role_of(token@, admin_key@, viewer_key@) is None,
            },
    {
        if same_name(token, admin_key) {
            Some(User { role: Role::Admin })
        } else if same_name(token, viewer_key) {
            Some(User { role: Role::Viewer })
        } else {
            None
        }
    }
}

} // verus!
