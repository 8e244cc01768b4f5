//! The identifier resolver: converts a caller-supplied block identifier —
//! content hash, height, or symbolic tag — into a canonical block reference
//! anchored to the current canonical chain view.

use vstd::prelude::*;

use crate::errors::QueryError;

verus! {

/// A symbolic position in the chain.
#[derive(Clone, Copy, Debug, PartialEq, Eq, Structural)]
pub enum BlockTag {
    /// The current best block.
    Latest,
    /// The in-progress block, when the surrounding system exposes one.
    /// This core exposes none and documents the fallback to `Latest`.
    Pending,
    /// The genesis block, at height zero.
    Earliest,
}

/// A caller-supplied, late-bound block identifier. No canonical form is
/// guaranteed: a height may not yet exist, a hash may name an orphaned
/// block, and a tag is a moving target.
#[derive(Clone, Copy, Debug, PartialEq, Eq, Structural)]
pub enum BlockIdentifier {
    ByHash(u64),
    ByHeight(u64),
    Tag(BlockTag),
}

/// A resolved reference: the content hash and height of exactly one block
/// of the canonical chain at resolution time. Once produced it is never
/// mutated; a later reorganization changes only new resolutions.
#[derive(Clone, Copy, Debug, PartialEq, Eq, Structural)]
pub struct CanonicalBlockRef {
    pub hash: u64,
    pub height: u64,
}

/// The chain index: the canonical chain as the content hash at each height,
/// together with the hashes of known blocks on branches no longer reachable
/// from the canonical head.
pub struct ChainIndex {
    /// Content hash of the canonical block at each height; the position in
    /// the vector is the height.
    pub canonical: Vec<u64>,
    /// Hashes of known but pruned or orphaned blocks. A lookup of such a
    /// hash must fail: the block is not reachable from the canonical head.
    pub orphaned: Vec<u64>,
}

impl ChainIndex {
    /// A well-formed index holds at least the genesis block, no hash twice
    /// on the canonical chain, and no orphaned hash on the canonical chain.
    pub open spec fn wf(&self) -> bool {
        &&& self.canonical@.len() >= 1
        &&& forall|i: int, j: int|
            0 <= i < j < self.canonical@.len() ==> self.canonical@[i] != self.canonical@[j]
        &&& forall|i: int|
            0 <= i < self.orphaned@.len() ==> !self.canonical@.contains(#[trigger] self.orphaned@[i])
    }
}

/// The height at which `hash` stands on the canonical chain; meaningful
/// only when the chain contains `hash`, and unique in a well-formed index.
pub open spec fn height_of(c: ChainIndex, hash: u64) -> int {
    choose|i: int| 0 <= i < c.canonical@.len() && c.canonical@[i] == hash
}

/// What resolution returns, as a function of the chain view alone.
///
/// `Tag(Pending)` falls back to `Latest`: this core exposes no in-flight
/// block, and the fallback is the documented behaviour for that case.
pub open spec fn spec_resolve(c: ChainIndex, id: BlockIdentifier) -> Result<
    CanonicalBlockRef,
    QueryError,
> {
    match id {
        BlockIdentifier::ByHash(h) => if c.canonical@.contains(h) {
            Ok(CanonicalBlockRef { hash: h, height: height_of(c, h) as u64 })
        } else {
            Err(QueryError::BlockNotFound)
        },
        BlockIdentifier::ByHeight(n) => if (n as int) < c.canonical@.len() {
            Ok(CanonicalBlockRef { hash: c.canonical@[n as int], height: n })
        } else {
            Err(QueryError::BlockNotFound)
        },
        BlockIdentifier::Tag(BlockTag::Earliest) => Ok(
            CanonicalBlockRef { hash: c.canonical@[0], height: 0 },
        ),
        BlockIdentifier::Tag(_) => Ok(
            CanonicalBlockRef {
                hash: c.canonical@[c.canonical@.len() - 1],
                height: (c.canonical@.len() - 1) as u64,
            },
        ),
    }
}

impl ChainIndex {
    /// Resolve a block identifier against this chain view.
    ///
    /// A hash is found only on the canonical chain — a known but orphaned
    /// hash fails. A height beyond the best block fails. An unresolvable
    /// identifier always surfaces as `BlockNotFound`, never as a fabricated
    /// reference.
    pub fn resolve(&self, id: BlockIdentifier) -> (r: Result<CanonicalBlockRef, QueryError>)
        requires
            self.wf(),
        ensures
            r == spec_resolve(*self, id),
            r matches Ok(br) ==> (br.height as int) < self.canonical@.len()
                && self.canonical@[br.height as int] == br.hash,
            r is Err ==> r == Err::<CanonicalBlockRef, QueryError>(QueryError::BlockNotFound),
    {
        match id {
            BlockIdentifier::ByHash(h) => {
                let mut i: usize = 0;
                while i < self.canonical.len()
                    invariant
                        self.wf(),
                        id == BlockIdentifier::ByHash(h),
                        i <= self.canonical@.len(),
                        forall|j: int| 0 <= j < i ==> self.canonical@[j] != h,
                    decreases self.canonical@.len() - i,
                {
                    if self.canonical[i] == h {
                        proof {
                            assert(self.canonical@[i as int] == h);
                            let k = height_of(*self, h);
                            assert(0 <= k < self.canonical@.len() && self.canonical@[k] == h);
                            assert(k == i as int) by {
                                if k < i as int {
                                    assert(self.canonical@[k] != self.canonical@[i as int]);
                                } else if k > i as int {
                                    assert(self.canonical@[i as int] != self.canonical@[k]);
                                }
                            }
                        }
                        return Ok(CanonicalBlockRef { hash: h, height: i as u64 });
                    }
                    i += 1;
                }
                proof {
                    assert(!self.canonical@.contains(h));
                }
                Err(QueryError::BlockNotFound)
            },
            BlockIdentifier::ByHeight(n) => {
                if n < self.canonical.len() as u64 {
                    let idx = n as usize;
                    Ok(CanonicalBlockRef { hash: self.canonical[idx], height: n })
                } else {
                    Err(QueryError::BlockNotFound)
                }
            },
            BlockIdentifier::Tag(BlockTag::Earliest) => {
                Ok(CanonicalBlockRef { hash: self.canonical[0], height: 0 })
            },
            BlockIdentifier::Tag(_) => {
                let last = self.canonical.len() - 1;
                Ok(CanonicalBlockRef { hash: self.canonical[last], height: last as u64 })
            },
        }
    }
}

/// An identifier that names nothing reachable from the canonical chain —
/// an unknown or orphaned hash, or a height beyond the best block —
/// resolves to `BlockNotFound` and never to a partial or default reference.
pub proof fn lemma_unreachable_not_found(c: ChainIndex, id: BlockIdentifier)
    requires
        c.wf(),
        id matches BlockIdentifier::ByHash(h) ==> !c.canonical@.contains(h),
        id matches BlockIdentifier::ByHeight(n) ==> (n as int) >= c.canonical@.len(),
        !(id is Tag),
    ensures
        spec_resolve(c, id) == Err::<CanonicalBlockRef, QueryError>(QueryError::BlockNotFound),
{
}

/// A hash known to the index but lying on an orphaned branch resolves to
/// `BlockNotFound`: reachability from the canonical head is what counts.
pub proof fn lemma_orphaned_not_found(c: ChainIndex, h: u64)
    requires
        c.wf(),
        c.orphaned@.contains(h),
    ensures
        spec_resolve(c, BlockIdentifier::ByHash(h)) == Err::<CanonicalBlockRef, QueryError>(
            QueryError::BlockNotFound,
        ),
{
    let i = choose|i: int| 0 <= i < c.orphaned@.len() && c.orphaned@[i] == h;
    assert(!c.canonical@.contains(c.orphaned@[i]));
}

/// Resolving `Tag(Latest)` twice against the same chain view — no block
/// imported in between — yields the same canonical reference, and succeeds.
pub proof fn lemma_latest_stable(
    c: ChainIndex,
    r1: Result<CanonicalBlockRef, QueryError>,
    r2: Result<CanonicalBlockRef, QueryError>,
)
    requires
        c.wf(),
        r1 == spec_resolve(c, BlockIdentifier::Tag(BlockTag::Latest)),
        r2 == spec_resolve(c, BlockIdentifier::Tag(BlockTag::Latest)),
    ensures
        r1 == r2,
        r1 is Ok,
{
}

} // verus!
