//! The state snapshot provider: given a resolved block, produce a read-only
//! snapshot of its post-execution state.
//!
//! The store keeps, per block, an optional materialized snapshot (the direct
//! store, which pruning empties for older blocks) and an optional retained
//! write set (the replay source of the historical override path). The ghost
//! `history` field is the post-execution state of every height — what direct
//! execution produced — and the well-formedness invariant ties both the
//! direct snapshots and the write sets to it, so that whichever path serves
//! a request, the snapshot handed out is exactly that state.

use vstd::prelude::*;
use vstd::pervasive::VecAdditionalExecFns;

use crate::encoding::clone_bytes;
use crate::errors::QueryError;
use crate::snapshot::Snapshot;
use crate::snapshot::StateEntry;

verus! {

/// The state map after replaying one block's write set, in order, on top of
/// the state it executed against.
pub open spec fn apply_writes(m: Map<Seq<u8>, Seq<u8>>, w: Seq<StateEntry>) -> Map<
    Seq<u8>,
    Seq<u8>,
>
    decreases w.len(),
{
    if w.len() == 0 {
        m
    } else {
        apply_writes(m, w.drop_last()).insert(w.last().key@, w.last().raw@)
    }
}

/// Per-block state storage for the canonical chain, with a pruned direct
/// store and a historical replay path.
pub struct StateStore {
    /// Retained per-block write sets, the source of historical
    /// reconstruction; `None` once discarded (the height is then too old
    /// even for the override path).
    pub diffs: Vec<Option<Vec<StateEntry>>>,
    /// Materialized post-execution snapshots in the direct store; `None`
    /// once pruned.
    pub direct: Vec<Option<Snapshot>>,
    /// The post-execution state of every height: exactly what direct
    /// execution produced there.
    pub history: Ghost<Seq<Map<Seq<u8>, Seq<u8>>>>,
}

impl StateStore {
    /// Number of block heights the store covers.
    pub open spec fn height_count(&self) -> nat {
        self.history@.len()
    }

    /// The state a block at height `h` executed against: genesis executes
    /// against the empty state, every later block against its parent's
    /// post-execution state.
    pub open spec fn prev_state(&self, h: int) -> Map<Seq<u8>, Seq<u8>> {
        if h == 0 {
            Map::empty()
        } else {
            self.history@[h - 1]
        }
    }

    /// Both stores cover every height; a materialized snapshot is exactly
    /// the state of its height; a retained write set replays its height's
    /// state from its parent's.
    pub open spec fn wf(&self) -> bool {
        &&& self.diffs@.len() == self.history@.len()
        &&& self.direct@.len() == self.history@.len()
        &&& forall|h: int|
            0 <= h < self.history@.len() ==> ((#[trigger] self.direct@[h]) matches Some(s)
                ==> s.wf() && s@ == self.history@[h])
        &&& forall|h: int|
            0 <= h < self.history@.len() ==> ((#[trigger] self.diffs@[h]) matches Some(w)
                ==> self.history@[h] == apply_writes(self.prev_state(h), w@))
    }

    /// The override path can reconstruct height `h` only while every write
    /// set up to `h` is still retained.
    pub open spec fn replayable(&self, h: int) -> bool {
        forall|b: int| 0 <= b <= h ==> (#[trigger] self.diffs@[b]) is Some
    }

    /// What opening height `h` yields, as a function of the store alone:
    /// the state of `h` when either path can produce it, `StateUnavailable`
    /// when the direct snapshot is pruned and replay data is missing.
    pub open spec fn spec_open(&self, h: int) -> Result<Map<Seq<u8>, Seq<u8>>, QueryError> {
        if self.direct@[h] is Some || self.replayable(h) {
            Ok(self.history@[h])
        } else {
            Err(QueryError::StateUnavailable)
        }
    }

    /// A store covering no heights yet.
    pub fn new() -> (r: StateStore)
        ensures
            r.wf(),
            r.height_count() == 0,
    {
        StateStore { diffs: Vec::new(), direct: Vec::new(), history: Ghost(Seq::empty()) }
    }

    /// Record the next block: its write set is applied to the materialized
    /// tip snapshot to define the new height's state, the write set is
    /// retained for the override path, and the new height's snapshot is
    /// materialized in the direct store. Importing a block needs its
    /// parent's state, so the tip must not have been pruned.
    pub fn push_block(&mut self, writes: Vec<StateEntry>)
        requires
            old(self).wf(),
            old(self).height_count() == 0 || old(self).direct@.last() is Some,
        ensures
            final(self).wf(),
            final(self).height_count() == old(self).height_count() + 1,
            final(self).history@ == old(self).history@.push(
                apply_writes(old(self).prev_state(old(self).height_count() as int), writes@),
            ),
            final(self).diffs@ == old(self).diffs@.push(Some(writes)),
            final(self).direct@.len() == old(self).direct@.len() + 1,
            forall|h: int|
                0 <= h < old(self).direct@.len() ==> final(self).direct@[h] == old(
                    self,
                ).direct@[h],
            final(self).direct@.last() is Some,
    {
        let ghost h_new = self.history@.len() as int;
        let mut snap = if self.direct.len() == 0 {
            Snapshot::new()
        } else {
            match &self.direct[self.direct.len() - 1] {
                Some(s) => s.duplicate(),
                None => {
                    proof {
                        assert(false);
                    }
                    Snapshot::new()
                },
            }
        };
        apply_writes_exec(&mut snap, &writes);
        proof {
            self.history@ = self.history@.push(apply_writes(self.prev_state(h_new), writes@));
        }
        self.direct.push(Some(snap));
        self.diffs.push(Some(writes));
        proof {
            assert forall|h: int|
                0 <= h < self.history@.len() implies ((#[trigger] self.direct@[h]) matches Some(s)
                ==> s.wf() && s@ == self.history@[h]) by {
                if h < h_new {
                    assert(old(self).direct@[h] == self.direct@[h]);
                }
            }
            assert forall|h: int|
                0 <= h < self.history@.len() implies ((#[trigger] self.diffs@[h]) matches Some(w)
                ==> self.history@[h] == apply_writes(self.prev_state(h), w@)) by {
                if h < h_new {
                    assert(old(self).diffs@[h] == self.diffs@[h]);
                    assert(self.prev_state(h) == old(self).prev_state(h));
                }
            }
        }
    }

    /// Reconstruct the state of height `h` by replaying the retained write
    /// sets from genesis: the historical override path. Yields nothing
    /// exactly when some needed write set has been discarded.
    fn rebuild(&self, h: usize) -> (r: Option<Snapshot>)
        requires
            self.wf(),
            (h as int) < self.height_count(),
        ensures
            r matches Some(s) ==> s.wf() && s@ == self.history@[h as int] && self.replayable(
                h as int,
            ),
            r is None ==> !self.replayable(h as int),
    {
        let mut snap = Snapshot::new();
        let n = self.diffs.len();
        let mut b: usize = 0;
        while b <= h
            invariant
                self.wf(),
                (h as int) < self.height_count(),
                n == self.diffs@.len(),
                h < n,
                b <= h + 1,
                snap.wf(),
                snap@ == self.prev_state(b as int),
                forall|j: int| 0 <= j < b ==> (#[trigger] self.diffs@[j]) is Some,
            decreases h + 1 - b,
        {
            match &self.diffs[b] {
                Some(writes) => {
                    apply_writes_exec(&mut snap, writes);
                    proof {
                        assert(self.diffs@[b as int] matches Some(w) && w@ == writes@);
                    }
                },
                None => {
                    return None;
                },
            }
            b += 1;
        }
        Some(snap)
    }

    /// Drop the materialized snapshot of height `h` from the direct store:
    /// pruning. The height's state is untouched; only the direct path to it
    /// is gone.
    pub fn prune_direct(&mut self, h: usize)
        requires
            old(self).wf(),
            (h as int) < old(self).height_count(),
        ensures
            final(self).wf(),
            final(self).history@ == old(self).history@,
            final(self).diffs@ == old(self).diffs@,
            final(self).direct@ == old(self).direct@.update(h as int, None),
    {
        self.direct.set(h, None);
    }

    /// Discard the retained write set of height `h`: heights at or above
    /// `h` can no longer be reconstructed by the override path.
    pub fn prune_diff(&mut self, h: usize)
        requires
            old(self).wf(),
            (h as int) < old(self).height_count(),
        ensures
            final(self).wf(),
            final(self).history@ == old(self).history@,
            final(self).direct@ == old(self).direct@,
            final(self).diffs@ == old(self).diffs@.update(h as int, None),
    {
        self.diffs.set(h, None);
    }

    /// Open a read-only snapshot of the state of height `h`.
    ///
    /// The direct store is tried first; when the snapshot has been pruned,
    /// the override path reconstructs it by replay. Both paths yield
    /// exactly the state direct execution produced at `h` — the override
    /// is exact, not best-effort. When neither path can produce the state,
    /// the failure is `StateUnavailable`, distinct from a block that does
    /// not exist.
    pub fn open(&self, h: u64) -> (r: Result<Snapshot, QueryError>)
        requires
            self.wf(),
            (h as int) < self.height_count(),
        ensures
            r matches Ok(s) ==> s.wf() && self.spec_open(h as int) == Ok::<_, QueryError>(s@),
            r matches Err(e) ==> self.spec_open(h as int) == Err::<Map<Seq<u8>, Seq<u8>>,
                QueryError,
            >(e),
    {
        let n = self.direct.len();
        proof {
            assert((h as int) < (n as int));
        }
        let hi = h as usize;
        proof {
            assert(hi as int == h as int);
        }
        match &self.direct[hi] {
            Some(s) => Ok(s.duplicate()),
            None => {
                match self.rebuild(hi) {
                    Some(s) => Ok(s),
                    None => Err(QueryError::StateUnavailable),
                }
            },
        }
    }
}

/// Replay one write set, in order, onto a snapshot.
fn apply_writes_exec(snap: &mut Snapshot, writes: &Vec<StateEntry>)
    requires
        old(snap).wf(),
    ensures
        final(snap).wf(),
        final(snap)@ == apply_writes(old(snap)@, writes@),
{
    let ghost m0 = snap@;
    let mut i: usize = 0;
    while i < writes.len()
        invariant
            snap.wf(),
            i <= writes@.len(),
            snap@ == apply_writes(m0, writes@.take(i as int)),
        decreases writes@.len() - i,
    {
        let e = &writes[i];
        snap.upsert(clone_bytes(&e.key), clone_bytes(&e.raw));
        proof {
            assert(writes@.take(i + 1 as int).drop_last() =~= writes@.take(i as int));
            assert(writes@.take(i + 1 as int).last() == writes@[i as int]);
        }
        i += 1;
    }
    proof {
        assert(writes@.take(writes@.len() as int) =~= writes@);
    }
}

} // verus!
