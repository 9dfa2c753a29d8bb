//! The authenticated-caller payload.
//!
//! The service around the engine authenticates its callers with
//! signed tokens; the engine itself needs nothing from them, so the
//! payload carries the caller's identity alone, as plain data.

use vstd::prelude::*;

verus! {

/// What a caller's token attests: the caller's numeric identity.
#[derive(Clone, Copy, PartialEq, Eq, Structural, Debug)]
pub struct TokenClaims {
    /// The caller's identity.
    pub id: i32,
}

impl TokenClaims {
    /// Claims for the caller with the given identity.
    pub fn new(id: i32) -> (r: TokenClaims)
        ensures
            r.id == id,
    {
        TokenClaims { id }
    }
}

} // verus!
