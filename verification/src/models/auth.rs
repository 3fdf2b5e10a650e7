//! The authenticated identity, as plain data.
//!
//! How such a value is produced (session cookie, token, header) is the
//! transport layer's business; the storage core only reads the hub id and
//! the role set.
use vstd::prelude::*;

verus! {

/// An authenticated user's claims.
#[derive(Debug)]
pub struct AuthenticatedUser {
    /// Subject (user id).
    pub sub: String,
    pub email: String,
    /// The hub whose storage subtree this user may touch.
    pub hub_id: i32,
    pub name: String,
    /// Role strings; operations demand membership of the required role.
    pub roles: Vec<String>,
    /// Expiration as a timestamp.
    pub exp: usize,
}

} // verus!
