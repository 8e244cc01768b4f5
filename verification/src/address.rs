//! Canonical account addresses: the domain key a typed query is made under.
//!
//! Callers hand the core a wire-level address: a fixed-width field element
//! spelled as up to 32 big-endian bytes, possibly with leading zeros. Before
//! any lookup the address is normalized into its canonical spelling, so that
//! two different wire spellings of the same logical address resolve to the
//! same key.

use vstd::prelude::*;

use crate::encoding::be_value;
use crate::encoding::canonical;
use crate::encoding::lemma_canonical_unique;
use crate::encoding::lemma_strip_zeros_value;
use crate::encoding::strip_zeros;

verus! {

/// A canonicalized account address: the value of a fixed-width field
/// element, spelled without leading zero bytes.
pub struct DomainKey {
    pub bytes: Vec<u8>,
}

impl View for DomainKey {
    type V = Seq<u8>;

    open spec fn view(&self) -> Seq<u8> {
        self.bytes@
    }
}

impl DomainKey {
    /// A well-formed key is canonical and fits the fixed width of a field
    /// element.
    pub open spec fn wf(&self) -> bool {
        canonical(self@) && self@.len() <= 32
    }
}

/// Normalize a wire-level address into its canonical domain key.
///
/// The result spells exactly the value the wire bytes denote, with the
/// leading zeros removed; every wire spelling of one logical address yields
/// one and the same key.
pub fn normalize(wire: &Vec<u8>) -> (r: DomainKey)
    requires
        wire@.len() <= 32,
    ensures
        r@ == strip_zeros(wire@),
        r.wf(),
        be_value(r@) == be_value(wire@),
{
    let mut i: usize = 0;
    proof {
        assert(wire@.skip(0) =~= wire@);
    }
    while i < wire.len() && wire[i] == 0
        invariant
            i <= wire@.len(),
            strip_zeros(wire@) == strip_zeros(wire@.skip(i as int)),
        decreases wire@.len() - i,
    {
        proof {
            assert(wire@.skip(i as int)[0] == wire@[i as int]);
            assert(wire@.skip(i as int).drop_first() =~= wire@.skip(i + 1 as int));
        }
        i += 1;
    }
    proof {
        if i < wire.len() {
            assert(wire@.skip(i as int)[0] == wire@[i as int]);
        }
        assert(strip_zeros(wire@.skip(i as int)) == wire@.skip(i as int));
        lemma_strip_zeros_value(wire@);
    }
    let mut out: Vec<u8> = Vec::new();
    let mut j: usize = i;
    while j < wire.len()
        invariant
            i <= j <= wire@.len(),
            out@ =~= wire@.subrange(i as int, j as int),
        decreases wire@.len() - j,
    {
        out.push(wire[j]);
        j += 1;
    }
    proof {
        assert(out@ =~= wire@.skip(i as int));
    }
    DomainKey { bytes: out }
}

/// Two wire encodings that denote the same logical address normalize to the
/// same canonical spelling, and hence to the same domain key.
pub proof fn lemma_wire_encodings_agree(w1: Seq<u8>, w2: Seq<u8>)
    requires
        be_value(w1) == be_value(w2),
    ensures
        strip_zeros(w1) == strip_zeros(w2),
{
    lemma_strip_zeros_value(w1);
    lemma_strip_zeros_value(w2);
    lemma_canonical_unique(strip_zeros(w1), strip_zeros(w2));
}

} // verus!
