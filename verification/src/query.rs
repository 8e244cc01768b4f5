//! The typed query layer and the full query pipeline: resolve an identifier,
//! open the resolved block's state, normalize the queried address, and
//! decode the stored entry into a nonce — short-circuiting on the first
//! failure, which always surfaces as one of the stable error categories.

use vstd::prelude::*;

use crate::address::normalize;
use crate::address::DomainKey;
use crate::block::spec_resolve;
use crate::block::BlockIdentifier;
use crate::block::ChainIndex;
use crate::encoding::be_value;
use crate::encoding::decode_u64;
use crate::encoding::spec_decode;
use crate::encoding::strip_zeros;
use crate::errors::QueryError;
use crate::snapshot::Snapshot;
use crate::state::StateStore;

verus! {

/// What the nonce query returns on a snapshot's state map and a canonical
/// key: `KeyNotFound` when no account is stored under the key — distinct
/// from an account stored with nonce zero — the decoded counter when the
/// entry decodes, and `InternalError` for a corrupt entry, never a value
/// coerced from corrupt bytes.
pub open spec fn spec_query_nonce(m: Map<Seq<u8>, Seq<u8>>, k: Seq<u8>) -> Result<
    nat,
    QueryError,
> {
    if !m.dom().contains(k) {
        Err(QueryError::KeyNotFound)
    } else {
        match spec_decode(m[k]) {
            Some(v) => Ok(v),
            None => Err(QueryError::InternalError),
        }
    }
}

/// An executable query result read at specification level.
pub open spec fn as_nat_result(r: Result<u64, QueryError>) -> Result<nat, QueryError> {
    match r {
        Ok(v) => Ok(v as nat),
        Err(e) => Err(e),
    }
}

/// Query the nonce stored under `key` in an open snapshot.
pub fn query_nonce(snap: &Snapshot, key: &DomainKey) -> (r: Result<u64, QueryError>)
    requires
        snap.wf(),
    ensures
        as_nat_result(r) == spec_query_nonce(snap@, key@),
        r == Err::<u64, QueryError>(QueryError::KeyNotFound) <==> !snap@.dom().contains(key@),
{
    match snap.lookup(&key.bytes) {
        Some(raw) => match decode_u64(raw) {
            Some(v) => Ok(v),
            None => Err(QueryError::InternalError),
        },
        None => Err(QueryError::KeyNotFound),
    }
}

/// The chain-state context one query runs against: the chain index that
/// resolves identifiers and the state store that serves snapshots. Both are
/// externally owned and only read here.
pub struct ChainState {
    pub chain: ChainIndex,
    pub store: StateStore,
}

impl ChainState {
    /// The two views agree: the store covers exactly the heights of the
    /// canonical chain.
    pub open spec fn wf(&self) -> bool {
        &&& self.chain.wf()
        &&& self.store.wf()
        &&& self.store.height_count() == self.chain.canonical@.len()
    }

    /// What the full pipeline returns, as a function of the chain state and
    /// the two inputs alone.
    pub open spec fn spec_get_nonce(&self, id: BlockIdentifier, wire: Seq<u8>) -> Result<
        nat,
        QueryError,
    > {
        match spec_resolve(self.chain, id) {
            Err(e) => Err(e),
            Ok(br) => match self.store.spec_open(br.height as int) {
                Err(e) => Err(e),
                Ok(m) => spec_query_nonce(m, strip_zeros(wire)),
            },
        }
    }

    /// The nonce of the account `wire_address` at the block `id` names.
    ///
    /// The identifier is resolved against the canonical chain, the resolved
    /// block's state is opened (directly or by historical reconstruction),
    /// the address is normalized into its canonical key, and the stored
    /// entry is decoded. Each failure surfaces as its own category:
    /// `BlockNotFound` for an unresolvable identifier, `StateUnavailable`
    /// for a resolved block whose state cannot be produced, `KeyNotFound`
    /// for an account absent from the resolved state, `InternalError` for
    /// an entry that cannot be decoded.
    pub fn get_nonce(&self, id: BlockIdentifier, wire_address: &Vec<u8>) -> (r: Result<
        u64,
        QueryError,
    >)
        requires
            self.wf(),
            wire_address@.len() <= 32,
        ensures
            as_nat_result(r) == self.spec_get_nonce(id, wire_address@),
    {
        let br = match self.chain.resolve(id) {
            Ok(br) => br,
            Err(e) => {
                return Err(e);
            },
        };
        let snap = match self.store.open(br.height) {
            Ok(s) => s,
            Err(e) => {
                return Err(e);
            },
        };
        let key = normalize(wire_address);
        query_nonce(&snap, &key)
    }
}

/// Reading the same identifier and key twice within a single chain state
/// yields identical results: the pipeline's answer is a function of the
/// chain state and the inputs alone.
pub proof fn lemma_reads_idempotent(
    cs: ChainState,
    id: BlockIdentifier,
    wire: Seq<u8>,
    r1: Result<u64, QueryError>,
    r2: Result<u64, QueryError>,
)
    requires
        as_nat_result(r1) == cs.spec_get_nonce(id, wire),
        as_nat_result(r2) == cs.spec_get_nonce(id, wire),
    ensures
        r1 == r2,
{
}

/// Two wire spellings of one logical address — the same denoted field
/// element, with or without leading zeros — receive identical answers from
/// the pipeline, whatever the identifier: normalization happens before any
/// lookup.
pub proof fn lemma_address_spellings_agree(
    cs: ChainState,
    id: BlockIdentifier,
    w1: Seq<u8>,
    w2: Seq<u8>,
)
    requires
        be_value(w1) == be_value(w2),
    ensures
        cs.spec_get_nonce(id, w1) == cs.spec_get_nonce(id, w2),
{
    crate::address::lemma_wire_encodings_agree(w1, w2);
}

/// The nonce of `k` at height `h` of a history, when the account exists
/// there and its entry decodes.
pub open spec fn nonce_at(history: Seq<Map<Seq<u8>, Seq<u8>>>, h: int, k: Seq<u8>) -> Option<
    nat,
> {
    if 0 <= h < history.len() && history[h].dom().contains(k) {
        spec_decode(history[h][k])
    } else {
        None
    }
}

/// A history in which no block removes an account or decreases its nonce.
/// Absent a chain reorganization this is how a chain evolves, one block at
/// a time; the monotonicity of reads across heights follows from it.
pub open spec fn nonce_monotonic(history: Seq<Map<Seq<u8>, Seq<u8>>>) -> bool {
    forall|h: int, k: Seq<u8>|
        #![trigger nonce_at(history, h, k)]
        0 <= h && h + 1 < history.len() && nonce_at(history, h, k) is Some ==> nonce_at(
            history,
            h + 1,
            k,
        ) is Some && nonce_at(history, h + 1, k).unwrap() >= nonce_at(history, h, k).unwrap()
}

/// For heights `h1 <= h2` and a key whose account exists with a decodable
/// nonce at `h1`, the nonce at `h2` exists and is at least the nonce at
/// `h1` — absent a chain reorganization between the two heights.
pub proof fn lemma_nonce_monotone(
    history: Seq<Map<Seq<u8>, Seq<u8>>>,
    h1: int,
    h2: int,
    k: Seq<u8>,
)
    requires
        nonce_monotonic(history),
        0 <= h1 <= h2 < history.len(),
        nonce_at(history, h1, k) is Some,
    ensures
        nonce_at(history, h2, k) is Some,
        nonce_at(history, h2, k).unwrap() >= nonce_at(history, h1, k).unwrap(),
    decreases h2 - h1,
{
    if h1 < h2 {
        lemma_nonce_monotone(history, h1, h2 - 1, k);
        assert(nonce_at(history, h2 - 1, k) is Some);
    }
}

/// The pipeline-level reading of the monotonicity law: two height queries
/// for the same wire address against one chain state, both of whose heights
/// have available state, return nondecreasing nonces — provided the lower
/// height's query succeeds and the history is reorganization-free.
pub proof fn lemma_get_nonce_monotone(
    cs: ChainState,
    h1: u64,
    h2: u64,
    wire: Seq<u8>,
    v1: nat,
)
    requires
        cs.wf(),
        nonce_monotonic(cs.store.history@),
        h1 <= h2,
        (h2 as int) < cs.store.height_count(),
        cs.store.spec_open(h2 as int) is Ok,
        cs.spec_get_nonce(BlockIdentifier::ByHeight(h1), wire) == Ok::<nat, QueryError>(v1),
    ensures
        cs.spec_get_nonce(BlockIdentifier::ByHeight(h2), wire) matches Ok(v2) && v2 >= v1,
{
    let k = strip_zeros(wire);
    let history = cs.store.history@;
    assert(nonce_at(history, h1 as int, k) == Some(v1));
    lemma_nonce_monotone(history, h1 as int, h2 as int, k);
}

} // verus!
