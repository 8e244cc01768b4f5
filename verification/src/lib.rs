//! Resolution of logical block identifiers (hash, height, or symbolic tag)
//! into canonical block references, point-in-time state snapshots for a
//! resolved block, and typed read queries (per-account nonce) against a
//! snapshot.
//!
//! The crate is read-only with respect to chain data: it resolves an
//! identifier against a chain index, opens the state of the resolved block
//! (directly, or by replaying retained per-block write sets when the direct
//! snapshot has been pruned), and decodes the stored entry for a canonical
//! account address. Every failure surfaces as one of four stable error
//! categories; no query ever fabricates a default value.

pub mod address;
pub mod block;
pub mod encoding;
pub mod errors;
pub mod query;
pub mod snapshot;
pub mod state;
