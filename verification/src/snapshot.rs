//! The state snapshot handle: a read-only view of account state bound to
//! exactly one resolved block, modelled as a table of entries keyed by the
//! store's native key encoding (canonical address bytes) and viewed in
//! contracts as a map from key bytes to raw stored bytes.

use vstd::prelude::*;
use vstd::pervasive::VecAdditionalExecFns;

use crate::encoding::bytes_eq;

verus! {

/// One stored account entry: the native key bytes and the raw stored value.
#[derive(Debug)]
pub struct StateEntry {
    pub key: Vec<u8>,
    pub raw: Vec<u8>,
}

/// No key occurs twice among the entries.
pub open spec fn distinct_keys(s: Seq<StateEntry>) -> bool {
    forall|i: int, j: int| 0 <= i < j < s.len() ==> s[i].key@ != s[j].key@
}

/// Some entry carries key `k`.
pub open spec fn has_key(s: Seq<StateEntry>, k: Seq<u8>) -> bool {
    exists|i: int| 0 <= i < s.len() && s[i].key@ == k
}

/// The position of the entry carrying key `k`; meaningful when `has_key`
/// holds, and unique under `distinct_keys`.
pub open spec fn key_index(s: Seq<StateEntry>, k: Seq<u8>) -> int {
    choose|i: int| 0 <= i < s.len() && s[i].key@ == k
}

/// The entries read as a map from key bytes to raw stored bytes.
pub open spec fn entries_map(s: Seq<StateEntry>) -> Map<Seq<u8>, Seq<u8>> {
    Map::new(|k: Seq<u8>| has_key(s, k), |k: Seq<u8>| s[key_index(s, k)].raw@)
}

/// An entry at position `i` under distinct keys is the entry the map view
/// reads for its key.
pub proof fn lemma_entry_at(s: Seq<StateEntry>, i: int)
    requires
        distinct_keys(s),
        0 <= i < s.len(),
    ensures
        has_key(s, s[i].key@),
        key_index(s, s[i].key@) == i,
        entries_map(s).dom().contains(s[i].key@),
        entries_map(s)[s[i].key@] == s[i].raw@,
{
    let k = s[i].key@;
    assert(has_key(s, k));
    let j = key_index(s, k);
    assert(0 <= j < s.len() && s[j].key@ == k);
    assert(j == i) by {
        if j < i {
            assert(s[j].key@ != s[i].key@);
        } else if j > i {
            assert(s[i].key@ != s[j].key@);
        }
    }
}

/// A read-only snapshot of account state at one block: the handle the
/// typed query layer reads from. It is created per call and discarded when
/// the query completes.
#[derive(Debug)]
pub struct Snapshot {
    pub entries: Vec<StateEntry>,
}

impl View for Snapshot {
    type V = Map<Seq<u8>, Seq<u8>>;

    open spec fn view(&self) -> Map<Seq<u8>, Seq<u8>> {
        entries_map(self.entries@)
    }
}

impl Snapshot {
    /// A well-formed snapshot holds each key at most once, so the map view
    /// reads exactly one raw value per key.
    pub open spec fn wf(&self) -> bool {
        distinct_keys(self.entries@)
    }

    /// The empty snapshot: no account exists.
    pub fn new() -> (r: Snapshot)
        ensures
            r.wf(),
            r@ == Map::<Seq<u8>, Seq<u8>>::empty(),
    {
        let r = Snapshot { entries: Vec::new() };
        proof {
            assert(r@ =~= Map::<Seq<u8>, Seq<u8>>::empty());
        }
        r
    }

    /// The position of the entry stored under `key`, if any.
    fn find_index(&self, key: &Vec<u8>) -> (r: Option<usize>)
        requires
            self.wf(),
        ensures
            r matches Some(i) ==> i < self.entries@.len() && self.entries@[i as int].key@ == key@,
            r is None ==> !has_key(self.entries@, key@),
    {
        let mut i: usize = 0;
        while i < self.entries.len()
            invariant
                self.wf(),
                i <= self.entries@.len(),
                forall|j: int| 0 <= j < i ==> self.entries@[j].key@ != key@,
            decreases self.entries@.len() - i,
        {
            if bytes_eq(&self.entries[i].key, key) {
                return Some(i);
            }
            i += 1;
        }
        None
    }

    /// Read the raw stored value under `key`.
    ///
    /// Returns the stored bytes exactly when the snapshot holds an account
    /// under `key`; a key never observed in this snapshot yields `None`,
    /// which the query layer reports as the key being absent — distinct
    /// from a key that is present with any stored value.
    pub fn lookup(&self, key: &Vec<u8>) -> (r: Option<&Vec<u8>>)
        requires
            self.wf(),
        ensures
            r is Some <==> self@.dom().contains(key@),
            r matches Some(v) ==> v@ == self@[key@],
    {
        match self.find_index(key) {
            Some(i) => {
                proof {
                    lemma_entry_at(self.entries@, i as int);
                }
                Some(&self.entries[i].raw)
            },
            None => {
                proof {
                    assert(!self@.dom().contains(key@));
                }
                None
            },
        }
    }

    /// An owned copy of this snapshot: the same keys over the same raw
    /// values. A direct-store snapshot is handed out as such a copy, so the
    /// store itself is never exposed to mutation.
    pub fn duplicate(&self) -> (r: Snapshot)
        requires
            self.wf(),
        ensures
            r.wf(),
            r@ == self@,
    {
        let ghost s = self.entries@;
        let mut out: Vec<StateEntry> = Vec::new();
        let mut i: usize = 0;
        while i < self.entries.len()
            invariant
                self.wf(),
                s == self.entries@,
                i <= s.len(),
                out@.len() == i,
                forall|j: int|
                    0 <= j < i ==> (#[trigger] out@[j]).key@ == s[j].key@ && out@[j].raw@
                        == s[j].raw@,
            decreases s.len() - i,
        {
            out.push(
                StateEntry {
                    key: crate::encoding::clone_bytes(&self.entries[i].key),
                    raw: crate::encoding::clone_bytes(&self.entries[i].raw),
                },
            );
            i += 1;
        }
        let r = Snapshot { entries: out };
        proof {
            assert forall|a: int, b: int| 0 <= a < b < r.entries@.len() implies r.entries@[a].key@
                != r.entries@[b].key@ by {
                assert(s[a].key@ != s[b].key@);
            }
            assert(r@ =~= self@) by {
                assert forall|x: Seq<u8>| has_key(r.entries@, x) <==> has_key(s, x) by {
                    if has_key(r.entries@, x) {
                        let j = key_index(r.entries@, x);
                        assert(s[j].key@ == x);
                    }
                    if has_key(s, x) {
                        let j = key_index(s, x);
                        assert(0 <= j < s.len() && s[j].key@ == x);
                        assert(r.entries@[j].key@ == x);
                    }
                }
                assert forall|x: Seq<u8>| has_key(r.entries@, x) implies entries_map(r.entries@)[x]
                    == entries_map(s)[x] by {
                    let j = key_index(s, x);
                    assert(0 <= j < s.len() && s[j].key@ == x);
                    lemma_entry_at(s, j);
                    assert(r.entries@[j].key@ == x);
                    lemma_entry_at(r.entries@, j);
                }
            }
        }
        r
    }

    /// Write `raw` under `key`, replacing any entry already stored there.
    ///
    /// This is how a historical write set is replayed onto a snapshot being
    /// reconstructed; the published handle itself is never mutated.
    pub fn upsert(&mut self, key: Vec<u8>, raw: Vec<u8>)
        requires
            old(self).wf(),
        ensures
            final(self).wf(),
            final(self)@ == old(self)@.insert(key@, raw@),
    {
        let ghost s0 = self.entries@;
        let ghost k0 = key@;
        let ghost r0 = raw@;
        match self.find_index(&key) {
            Some(i) => {
                proof {
                    lemma_entry_at(s0, i as int);
                }
                self.entries.set(i, StateEntry { key, raw });
                proof {
                    let s1 = self.entries@;
                    assert forall|a: int, b: int| 0 <= a < b < s1.len() implies s1[a].key@
                        != s1[b].key@ by {
                        if a != i as int && b != i as int {
                            assert(s0[a].key@ != s0[b].key@);
                        } else {
                            assert(s0[a].key@ != s0[b].key@ || s1[a].key@ == k0 || s1[b].key@
                                == k0);
                        }
                    }
                    assert(entries_map(s1) =~= entries_map(s0).insert(k0, r0)) by {
                        assert forall|x: Seq<u8>| has_key(s1, x) <==> (has_key(s0, x) || x
                            == k0) by {
                            if has_key(s1, x) {
                                let j = key_index(s1, x);
                                assert(0 <= j < s1.len() && s1[j].key@ == x);
                                if j != i as int {
                                    assert(s0[j].key@ == x);
                                }
                            }
                            if has_key(s0, x) {
                                let j = key_index(s0, x);
                                assert(0 <= j < s0.len() && s0[j].key@ == x);
                                if j != i as int {
                                    assert(s1[j].key@ == x);
                                } else {
                                    assert(x == k0);
                                }
                            }
                            if x == k0 {
                                assert(s1[i as int].key@ == x);
                            }
                        }
                        assert forall|x: Seq<u8>| has_key(s1, x) implies entries_map(s1)[x]
                            == entries_map(s0).insert(k0, r0)[x] by {
                            lemma_entry_at(s1, key_index(s1, x));
                            if x == k0 {
                                lemma_entry_at(s1, i as int);
                            } else {
                                let j = key_index(s1, x);
                                assert(j != i as int);
                                assert(s0[j].key@ == x);
                                lemma_entry_at(s0, j);
                            }
                        }
                    }
                }
            },
            None => {
                self.entries.push(StateEntry { key, raw });
                proof {
                    let s1 = self.entries@;
                    assert forall|a: int, b: int| 0 <= a < b < s1.len() implies s1[a].key@
                        != s1[b].key@ by {
                        if b == s1.len() - 1 {
                            assert(s0[a].key@ == s1[a].key@);
                            assert(!has_key(s0, k0));
                            assert(s0[a].key@ != k0);
                        } else {
                            assert(s0[a].key@ != s0[b].key@);
                        }
                    }
                    assert(entries_map(s1) =~= entries_map(s0).insert(k0, r0)) by {
                        assert forall|x: Seq<u8>| has_key(s1, x) <==> (has_key(s0, x) || x
                            == k0) by {
                            if has_key(s1, x) {
                                let j = key_index(s1, x);
                                assert(0 <= j < s1.len() && s1[j].key@ == x);
                                if j != s1.len() - 1 {
                                    assert(s0[j].key@ == x);
                                }
                            }
                            if has_key(s0, x) {
                                let j = key_index(s0, x);
                                assert(s1[j].key@ == x);
                            }
                            if x == k0 {
                                assert(s1[s1.len() - 1].key@ == x);
                            }
                        }
                        assert forall|x: Seq<u8>| has_key(s1, x) implies entries_map(s1)[x]
                            == entries_map(s0).insert(k0, r0)[x] by {
                            lemma_entry_at(s1, key_index(s1, x));
                            if x == k0 {
                                lemma_entry_at(s1, s1.len() - 1);
                            } else {
                                let j = key_index(s1, x);
                                assert(j != s1.len() - 1);
                                assert(s0[j].key@ == x);
                                lemma_entry_at(s0, j);
                            }
                        }
                    }
                }
            },
        }
    }
}

} // verus!
