//! Error categories and the adapter that maps them to the stable
//! wire-level codes exposed to callers.

use vstd::prelude::*;

verus! {

/// The externally stable failure taxonomy of the query core.
///
/// Every failure along the resolve / open / query pipeline is reported as
/// exactly one of these categories, never as a raw internal error and never
/// as a silently substituted default value.
#[derive(Clone, Copy, Debug, PartialEq, Eq, Structural)]
pub enum QueryError {
    /// The identifier does not resolve to a block reachable from the
    /// canonical chain.
    BlockNotFound,
    /// The block exists, but its state can be produced neither from the
    /// direct store nor by historical reconstruction.
    StateUnavailable,
    /// The resolved state holds no account under the queried key.
    KeyNotFound,
    /// The stored entry for the key is corrupt and cannot be decoded.
    InternalError,
}

impl QueryError {
    /// Map this category to the stable wire-level code handed to callers.
    ///
    /// Callers do not distinguish a block whose state is gone from a block
    /// that never existed, so `StateUnavailable` is folded into
    /// `BLOCK_NOT_FOUND`.
    pub fn wire_code(&self) -> (r: &'static str)
        ensures
            (*self == QueryError::BlockNotFound || *self == QueryError::StateUnavailable)
                ==> r@ == "BLOCK_NOT_FOUND"@,
            *self == QueryError::KeyNotFound ==> r@ == "CONTRACT_NOT_FOUND"@,
            *self == QueryError::InternalError ==> r@ == "INTERNAL_ERROR"@,
    {
        match self {
            QueryError::BlockNotFound => "BLOCK_NOT_FOUND",
            QueryError::StateUnavailable => "BLOCK_NOT_FOUND",
            QueryError::KeyNotFound => "CONTRACT_NOT_FOUND",
            QueryError::InternalError => "INTERNAL_ERROR",
        }
    }
}

} // verus!
