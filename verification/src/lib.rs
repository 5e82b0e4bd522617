//! A minimal self-hosted file-sharing library: upload handling with
//! collision-free random names, API-key gated administration, and a
//! file listing with sizes and delete links.
use vstd::prelude::*;

pub mod auth;
pub mod config;
pub mod listing;
pub mod names;
pub mod upload;

verus! {

/// The fixed response of the delete handler: the same message whether or
/// not the file existed, so clients cannot distinguish the two cases.
pub open spec fn delete_message() -> Seq<char> {
    "Deleted!"@
}

/// Builds the delete handler's response. The result does not depend on
/// whether the removal found a file: deletion is idempotent for clients.
pub fn delete_response(removed: bool) -> (r: String)
    ensures
        r@ == delete_message(),
{
    String::from_str("Deleted!")
}

} // verus!
