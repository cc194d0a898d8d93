//! Variable-length quantities as the MIDI file format writes them: seven
//! bits per byte, most significant group first, the top bit set on every
//! byte but the last.
use vstd::prelude::*;

verus! {

/// The bytes that carry the seven-bit groups of `q` above the lowest one,
/// each with its continuation bit set, most significant first.
pub open spec fn vlq_high(q: nat) -> Seq<u8>
    decreases q,
{
    if q == 0 {
        Seq::empty()
    } else {
        vlq_high(q / 128).push((q % 128 + 128) as u8)
    }
}

/// The encoding of `v`: the high groups, then the lowest group with its top
/// bit clear. Zero is the single byte `0x00`.
pub open spec fn vlq(v: nat) -> Seq<u8> {
    vlq_high(v / 128).push((v % 128) as u8)
}

/// The number that the seven-bit groups of `s` spell, most significant first.
pub open spec fn vlq_value(s: Seq<u8>) -> nat
    decreases s.len(),
{
    if s.len() == 0 {
        0
    } else {
        vlq_value(s.drop_last()) * 128 + (s.last() % 128) as nat
    }
}

/// How many bytes a reader takes from the front of `s` for one quantity: up
/// to and including the first byte whose top bit is clear.
pub open spec fn vlq_extent(s: Seq<u8>) -> nat
    decreases s.len(),
{
    if s.len() == 0 {
        0
    } else if s[0] < 128 {
        1
    } else {
        1 + vlq_extent(s.drop_first())
    }
}

/// What a reader decodes from the front of `s`.
pub open spec fn vlq_decode(s: Seq<u8>) -> nat {
    vlq_value(s.take(vlq_extent(s) as int))
}

proof fn lemma_high_value(q: nat)
    ensures
        vlq_value(vlq_high(q)) == q,
        forall|i: int| 0 <= i < vlq_high(q).len() ==> vlq_high(q)[i] >= 128,
    decreases q,
{
    if q != 0 {
        lemma_high_value(q / 128);
        let h = vlq_high(q / 128);
        assert(vlq_high(q).drop_last() == h);
    }
}

proof fn lemma_extent(h: Seq<u8>, low: u8, rest: Seq<u8>)
    requires
        low < 128,
        forall|i: int| 0 <= i < h.len() ==> h[i] >= 128,
    ensures
        vlq_extent(h.push(low) + rest) == h.len() + 1,
    decreases h.len(),
{
    let s = h.push(low) + rest;
    if h.len() == 0 {
        assert(s[0] == low);
    } else {
        assert(s[0] == h[0]);
        lemma_extent(h.drop_first(), low, rest);
        assert(s.drop_first() == h.drop_first().push(low) + rest);
    }
}

/// Reading a quantity back from the front of any byte stream that starts
/// with the encoding of `v` gives `v`, and takes exactly the encoded bytes.
pub proof fn lemma_vlq_round_trip(v: nat, rest: Seq<u8>)
    ensures
        vlq_extent(vlq(v) + rest) == vlq(v).len(),
        vlq_decode(vlq(v) + rest) == v,
        vlq_value(vlq(v)) == v,
{
    let h = vlq_high(v / 128);
    let low = (v % 128) as u8;
    lemma_high_value(v / 128);
    lemma_extent(h, low, rest);
    assert(vlq(v).drop_last() == h);
    assert((vlq(v) + rest).take(vlq(v).len() as int) == vlq(v));
}

/// `128` raised to the power `k`.
pub open spec fn pow128(k: nat) -> nat
    decreases k,
{
    if k == 0 {
        1
    } else {
        128 * pow128((k - 1) as nat)
    }
}

proof fn lemma_high_len(q: nat, k: nat)
    requires
        q < pow128(k),
    ensures
        vlq_high(q).len() <= k,
    decreases q,
{
    if q != 0 {
        let k1 = (k - 1) as nat;
        assert(k >= 1);
        let p = pow128(k1);
        assert(q / 128 < p) by (nonlinear_arith)
            requires
                q < 128 * p,
        ;
        lemma_high_len(q / 128, k1);
    }
}

/// A 64-bit quantity takes at most ten bytes.
pub proof fn lemma_vlq_len_u64(v: u64)
    ensures
        1 <= vlq(v as nat).len() <= 10,
{
    reveal_with_fuel(pow128, 10);
    assert(pow128(9) == 0x8000_0000_0000_0000nat);
    lemma_high_len((v / 128) as nat, 9);
}

} // verus!
