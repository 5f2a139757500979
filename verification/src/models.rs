//! The persisted entities.
use vstd::prelude::*;

verus! {

/// One stored user record: a unique name, the self-describing encoded
/// password hash, and the revocation counter embedded in issued tokens.
pub struct User {
    pub name: String,
    pub pass_hash: String,
    pub token_version: u32,
}

} // verus!
