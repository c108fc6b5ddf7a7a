//! What can go wrong.

use vstd::prelude::*;

verus! {

/// The database failed. This is never reported as an invalid token: an
/// outage must not look like a refusal.
#[derive(Debug, Clone, Copy, PartialEq, Eq, Structural)]
pub struct StoreUnavailable;

/// Why no token was issued.
#[derive(Debug, Clone, Copy, PartialEq, Eq, Structural)]
pub enum IssueError {
    /// The database failed.
    StoreUnavailable,
    /// The system's random source failed.
    EntropyUnavailable,
    /// Every token that was drawn was already taken.
    TooManyCollisions,
}

/// Why a request was turned away.
#[derive(Debug, Clone, Copy, PartialEq, Eq, Structural)]
pub enum AuthError {
    /// The token is absent, malformed, unknown or expired.
    InvalidToken,
    /// The database failed, so nothing is known of the token.
    StoreUnavailable,
}

impl AuthError {
    /// The HTTP status that answers the request: 401 for an invalid
    /// token, 500 for a failed database.
    pub fn status(&self) -> (code: u16)
        ensures
            code == match *self {
                AuthError::InvalidToken => 401u16,
                AuthError::StoreUnavailable => 500u16,
            },
    {
        match self {
            AuthError::InvalidToken => 401,
            AuthError::StoreUnavailable => 500,
        }
    }
}

} // verus!
