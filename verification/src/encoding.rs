//! Big-endian byte-string encodings of unsigned values: the value a byte
//! string denotes, its canonical (leading-zero-free) spelling, and the
//! verified decoder used for stored nonce entries.

use vstd::prelude::*;

verus! {

/// The unsigned integer denoted by a big-endian byte string.
pub open spec fn be_value(s: Seq<u8>) -> nat
    decreases s.len(),
{
    if s.len() == 0 {
        0
    } else {
        (256 * be_value(s.drop_last()) + s.last()) as nat
    }
}

/// 256 raised to `n`: the number of distinct byte strings of length `n`.
pub open spec fn pow256(n: nat) -> nat
    decreases n,
{
    if n == 0 {
        1
    } else {
        256 * pow256((n - 1) as nat)
    }
}

/// A byte string is canonical when it carries no leading zero byte, so that
/// each value has exactly one canonical spelling.
pub open spec fn canonical(s: Seq<u8>) -> bool {
    s.len() > 0 ==> s[0] != 0
}

/// `s` with its leading zero bytes removed: the canonical spelling of the
/// value `s` denotes.
pub open spec fn strip_zeros(s: Seq<u8>) -> Seq<u8>
    decreases s.len(),
{
    if s.len() > 0 && s[0] == 0 {
        strip_zeros(s.drop_first())
    } else {
        s
    }
}

pub proof fn lemma_pow256_pos(n: nat)
    ensures
        pow256(n) >= 1,
    decreases n,
{
    if n > 0 {
        lemma_pow256_pos((n - 1) as nat);
    }
}

pub proof fn lemma_pow256_mono(a: nat, b: nat)
    requires
        a <= b,
    ensures
        pow256(a) <= pow256(b),
    decreases b,
{
    if a < b {
        lemma_pow256_mono(a, (b - 1) as nat);
        lemma_pow256_pos((b - 1) as nat);
    }
}

/// A byte string of length `n` denotes a value below `pow256(n)`.
pub proof fn lemma_be_value_bound(s: Seq<u8>)
    ensures
        be_value(s) < pow256(s.len()),
    decreases s.len(),
{
    if s.len() > 0 {
        lemma_be_value_bound(s.drop_last());
    }
}

/// A nonempty canonical byte string denotes a nonzero value.
pub proof fn lemma_canonical_positive(s: Seq<u8>)
    requires
        canonical(s),
        s.len() > 0,
    ensures
        be_value(s) >= 1,
    decreases s.len(),
{
    if s.len() > 1 {
        assert(s.drop_last()[0] == s[0]);
        lemma_canonical_positive(s.drop_last());
    }
}

/// Canonical spellings are unique: two canonical byte strings that denote
/// the same value are the same string.
pub proof fn lemma_canonical_unique(a: Seq<u8>, b: Seq<u8>)
    requires
        canonical(a),
        canonical(b),
        be_value(a) == be_value(b),
    ensures
        a == b,
    decreases a.len() + b.len(),
{
    if a.len() == 0 && b.len() == 0 {
        assert(a =~= b);
    } else if a.len() == 0 {
        lemma_canonical_positive(b);
        assert(false);
    } else if b.len() == 0 {
        lemma_canonical_positive(a);
        assert(false);
    } else {
        let x = be_value(a.drop_last());
        let y = be_value(b.drop_last());
        assert(256 * x + a.last() == 256 * y + b.last());
        assert(x == y && a.last() == b.last());
        if a.len() > 1 {
            assert(a.drop_last()[0] == a[0]);
        }
        if b.len() > 1 {
            assert(b.drop_last()[0] == b[0]);
        }
        lemma_canonical_unique(a.drop_last(), b.drop_last());
        assert(a =~= a.drop_last().push(a.last()));
        assert(b =~= b.drop_last().push(b.last()));
    }
}

/// Removing a leading zero byte does not change the denoted value.
pub proof fn lemma_drop_first_zero(s: Seq<u8>)
    requires
        s.len() > 0,
        s[0] == 0,
    ensures
        be_value(s.drop_first()) == be_value(s),
    decreases s.len(),
{
    if s.len() > 1 {
        assert(s.drop_first().drop_last() =~= s.drop_last().drop_first());
        assert(s.drop_first().last() == s.last());
        assert(s.drop_last()[0] == s[0]);
        lemma_drop_first_zero(s.drop_last());
        assert(be_value(s.drop_first()) == (256 * be_value(s.drop_first().drop_last())
            + s.drop_first().last()) as nat);
    } else {
        assert(s.last() == s[0]);
        assert(be_value(s.drop_first()) == 0);
        assert(be_value(s.drop_last()) == 0);
    }
}

/// Stripping leading zeros yields the canonical spelling of the same value,
/// never a longer string.
pub proof fn lemma_strip_zeros_value(s: Seq<u8>)
    ensures
        be_value(strip_zeros(s)) == be_value(s),
        canonical(strip_zeros(s)),
        strip_zeros(s).len() <= s.len(),
    decreases s.len(),
{
    if s.len() > 0 && s[0] == 0 {
        lemma_drop_first_zero(s);
        lemma_strip_zeros_value(s.drop_first());
    }
}

/// What decoding a stored entry yields: the denoted value for an entry of
/// counter width, nothing for a corrupt (over-wide) entry.
pub open spec fn spec_decode(raw: Seq<u8>) -> Option<nat> {
    if raw.len() <= 8 {
        Some(be_value(raw))
    } else {
        None
    }
}

/// An owned copy of a byte string.
pub fn clone_bytes(v: &Vec<u8>) -> (r: Vec<u8>)
    ensures
        r@ == v@,
{
    let mut out: Vec<u8> = Vec::new();
    let mut i: usize = 0;
    while i < v.len()
        invariant
            i <= v@.len(),
            out@ =~= v@.take(i as int),
        decreases v@.len() - i,
    {
        out.push(v[i]);
        i += 1;
    }
    proof {
        assert(v@.take(v@.len() as int) =~= v@);
    }
    out
}

/// Byte-string equality, decided index by index.
pub fn bytes_eq(a: &Vec<u8>, b: &Vec<u8>) -> (r: bool)
    ensures
        r == (a@ == b@),
{
    if a.len() != b.len() {
        return false;
    }
    let mut i: usize = 0;
    while i < a.len()
        invariant
            i <= a@.len(),
            a@.len() == b@.len(),
            forall|j: int| 0 <= j < i ==> a@[j] == b@[j],
        decreases a@.len() - i,
    {
        if a[i] != b[i] {
            return false;
        }
        i += 1;
    }
    proof {
        assert(a@ =~= b@);
    }
    true
}

/// Decode a stored big-endian entry into an unsigned counter.
///
/// An entry longer than eight bytes cannot be a counter value and is
/// reported as undecodable rather than coerced; a decodable entry yields
/// exactly the value its bytes denote.
pub fn decode_u64(raw: &Vec<u8>) -> (r: Option<u64>)
    ensures
        r is Some <==> raw@.len() <= 8,
        r matches Some(v) ==> v as nat == be_value(raw@),
{
    if raw.len() > 8 {
        return None;
    }
    let mut acc: u64 = 0;
    let mut i: usize = 0;
    while i < raw.len()
        invariant
            i <= raw@.len(),
            raw@.len() <= 8,
            acc as nat == be_value(raw@.take(i as int)),
        decreases raw@.len() - i,
    {
        proof {
            lemma_be_value_bound(raw@.take(i as int));
            assert(raw@.take(i as int).len() == i as int);
            lemma_pow256_mono(i as nat, 7);
            assert(pow256(7) == 0x100_0000_0000_0000) by {
                reveal_with_fuel(pow256, 8);
            }
        }
        let b = raw[i];
        proof {
            assert(raw@.take(i + 1 as int).drop_last() =~= raw@.take(i as int));
            assert(raw@.take(i + 1 as int).last() == raw@[i as int]);
        }
        acc = acc * 256 + (b as u64);
        i += 1;
    }
    proof {
        assert(raw@.take(raw@.len() as int) =~= raw@);
    }
    Some(acc)
}

} // verus!
