//! Little-endian integer encoding over byte sequences.

use vstd::prelude::*;
use vstd::bytes::{
    spec_u16_to_le_bytes, spec_u16_from_le_bytes, spec_u32_to_le_bytes, spec_u32_from_le_bytes,
    spec_u64_to_le_bytes, spec_u64_from_le_bytes,
};

verus! {

pub open spec fn le16(x: u16) -> Seq<u8> {
    spec_u16_to_le_bytes(x)
}

pub open spec fn le32(x: u32) -> Seq<u8> {
    spec_u32_to_le_bytes(x)
}

pub open spec fn le64(x: u64) -> Seq<u8> {
    spec_u64_to_le_bytes(x)
}

pub open spec fn de16(s: Seq<u8>) -> u16 {
    spec_u16_from_le_bytes(s)
}

pub open spec fn de32(s: Seq<u8>) -> u32 {
    spec_u32_from_le_bytes(s)
}

pub open spec fn de64(s: Seq<u8>) -> u64 {
    spec_u64_from_le_bytes(s)
}

/// Concatenated little-endian encodings of a sequence of `u64`.
pub open spec fn le64_seq(xs: Seq<u64>) -> Seq<u8>
    decreases xs.len(),
{
    if xs.len() == 0 {
        Seq::empty()
    } else {
        le64_seq(xs.drop_last()) + le64(xs.last())
    }
}

/// Concatenated little-endian encodings of a sequence of `u32`.
pub open spec fn le32_seq(xs: Seq<u32>) -> Seq<u8>
    decreases xs.len(),
{
    if xs.len() == 0 {
        Seq::empty()
    } else {
        le32_seq(xs.drop_last()) + le32(xs.last())
    }
}

/// Decoding of `n` consecutive little-endian `u64` words.
pub open spec fn de64_seq(s: Seq<u8>, n: nat) -> Seq<u64> {
    Seq::new(n, |i: int| de64(s.subrange(8 * i, 8 * i + 8)))
}

/// Decoding of `n` consecutive little-endian `u32` words.
pub open spec fn de32_seq(s: Seq<u8>, n: nat) -> Seq<u32> {
    Seq::new(n, |i: int| de32(s.subrange(4 * i, 4 * i + 4)))
}

pub proof fn lemma_le_lengths()
    ensures
        forall|x: u16| #[trigger] le16(x).len() == 2,
        forall|x: u32| #[trigger] le32(x).len() == 4,
        forall|x: u64| #[trigger] le64(x).len() == 8,
{
    vstd::bytes::lemma_auto_spec_u16_to_from_le_bytes();
    vstd::bytes::lemma_auto_spec_u32_to_from_le_bytes();
    vstd::bytes::lemma_auto_spec_u64_to_from_le_bytes();
}

pub proof fn lemma_le_roundtrip()
    ensures
        forall|x: u16| #[trigger] de16(le16(x)) == x,
        forall|x: u32| #[trigger] de32(le32(x)) == x,
        forall|x: u64| #[trigger] de64(le64(x)) == x,
        forall|s: Seq<u8>| s.len() == 2 ==> #[trigger] le16(de16(s)) == s,
        forall|s: Seq<u8>| s.len() == 4 ==> #[trigger] le32(de32(s)) == s,
        forall|s: Seq<u8>| s.len() == 8 ==> #[trigger] le64(de64(s)) == s,
{
    vstd::bytes::lemma_auto_spec_u16_to_from_le_bytes();
    vstd::bytes::lemma_auto_spec_u32_to_from_le_bytes();
    vstd::bytes::lemma_auto_spec_u64_to_from_le_bytes();
    assert forall|x: u16| #[trigger] de16(le16(x)) == x by {
        assert(le16(x).len() == 2);
    }
    assert forall|x: u32| #[trigger] de32(le32(x)) == x by {
        assert(le32(x).len() == 4);
    }
}

pub proof fn lemma_le64_seq(xs: Seq<u64>)
    ensures
        le64_seq(xs).len() == 8 * xs.len(),
        forall|i: int|
            0 <= i < xs.len() ==> #[trigger] le64_seq(xs).subrange(8 * i, 8 * i + 8) == le64(xs[i]),
        de64_seq(le64_seq(xs), xs.len()) == xs,
    decreases xs.len(),
{
    lemma_le_lengths();
    lemma_le_roundtrip();
    if xs.len() > 0 {
        let p = xs.drop_last();
        lemma_le64_seq(p);
        let s = le64_seq(xs);
        assert(s == le64_seq(p) + le64(xs.last()));
        assert forall|i: int| 0 <= i < xs.len() implies #[trigger] s.subrange(8 * i, 8 * i + 8)
            == le64(xs[i]) by {
            if i < p.len() {
                assert(s.subrange(8 * i, 8 * i + 8) =~= le64_seq(p).subrange(8 * i, 8 * i + 8));
                assert(p[i] == xs[i]);
            } else {
                assert(s.subrange(8 * i, 8 * i + 8) =~= le64(xs.last()));
            }
        }
        assert(de64_seq(s, xs.len()) =~= xs);
    }
}

pub proof fn lemma_le32_seq(xs: Seq<u32>)
    ensures
        le32_seq(xs).len() == 4 * xs.len(),
        forall|i: int|
            0 <= i < xs.len() ==> #[trigger] le32_seq(xs).subrange(4 * i, 4 * i + 4) == le32(xs[i]),
        de32_seq(le32_seq(xs), xs.len()) == xs,
    decreases xs.len(),
{
    lemma_le_lengths();
    lemma_le_roundtrip();
    if xs.len() > 0 {
        let p = xs.drop_last();
        lemma_le32_seq(p);
        let s = le32_seq(xs);
        assert(s == le32_seq(p) + le32(xs.last()));
        assert forall|i: int| 0 <= i < xs.len() implies #[trigger] s.subrange(4 * i, 4 * i + 4)
            == le32(xs[i]) by {
            if i < p.len() {
                assert(s.subrange(4 * i, 4 * i + 4) =~= le32_seq(p).subrange(4 * i, 4 * i + 4));
                assert(p[i] == xs[i]);
            } else {
                assert(s.subrange(4 * i, 4 * i + 4) =~= le32(xs.last()));
            }
        }
        assert(de32_seq(s, xs.len()) =~= xs);
    }
}

/// A byte string of `8 * n` bytes is the encoding of its own decoding.
pub proof fn lemma_de64_seq_le(s: Seq<u8>, n: nat)
    requires
        s.len() == 8 * n,
    ensures
        le64_seq(de64_seq(s, n)) == s,
    decreases n,
{
    lemma_le_lengths();
    lemma_le_roundtrip();
    if n > 0 {
        let m = (n - 1) as nat;
        let front = s.subrange(0, (8 * m) as int);
        lemma_de64_seq_le(front, m);
        let xs = de64_seq(s, n);
        assert(xs.drop_last() =~= de64_seq(front, m)) by {
            assert forall|i: int| 0 <= i < m implies #[trigger] front.subrange(8 * i, 8 * i + 8) == s.subrange(
                8 * i,
                8 * i + 8,
            ) by {
                assert(front.subrange(8 * i, 8 * i + 8) =~= s.subrange(8 * i, 8 * i + 8));
            }
        }
        assert(le64(xs.last()) == s.subrange((8 * m) as int, (8 * n) as int));
        assert(s =~= front + s.subrange((8 * m) as int, (8 * n) as int));
    }
}

/// A byte string of `4 * n` bytes is the encoding of its own decoding.
pub proof fn lemma_de32_seq_le(s: Seq<u8>, n: nat)
    requires
        s.len() == 4 * n,
    ensures
        le32_seq(de32_seq(s, n)) == s,
    decreases n,
{
    lemma_le_lengths();
    lemma_le_roundtrip();
    if n > 0 {
        let m = (n - 1) as nat;
        let front = s.subrange(0, (4 * m) as int);
        lemma_de32_seq_le(front, m);
        let xs = de32_seq(s, n);
        assert(xs.drop_last() =~= de32_seq(front, m)) by {
            assert forall|i: int| 0 <= i < m implies #[trigger] front.subrange(4 * i, 4 * i + 4) == s.subrange(
                4 * i,
                4 * i + 4,
            ) by {
                assert(front.subrange(4 * i, 4 * i + 4) =~= s.subrange(4 * i, 4 * i + 4));
            }
        }
        assert(le32(xs.last()) == s.subrange((4 * m) as int, (4 * n) as int));
        assert(s =~= front + s.subrange((4 * m) as int, (4 * n) as int));
    }
}

pub fn push_u16(v: &mut Vec<u8>, x: u16)
    ensures
        final(v)@ == old(v)@ + le16(x),
{
    let mut b = vstd::bytes::u16_to_le_bytes(x);
    v.append(&mut b);
}

pub fn push_u32(v: &mut Vec<u8>, x: u32)
    ensures
        final(v)@ == old(v)@ + le32(x),
{
    let mut b = vstd::bytes::u32_to_le_bytes(x);
    v.append(&mut b);
}

pub fn push_u64(v: &mut Vec<u8>, x: u64)
    ensures
        final(v)@ == old(v)@ + le64(x),
{
    let mut b = vstd::bytes::u64_to_le_bytes(x);
    v.append(&mut b);
}

pub fn push_zeros(v: &mut Vec<u8>, n: usize)
    ensures
        final(v)@ == old(v)@ + Seq::new(n as nat, |i: int| 0u8),
{
    let ghost start = v@;
    let mut i: usize = 0;
    while i < n
        invariant
            i <= n,
            v@ == start + Seq::new(i as nat, |k: int| 0u8),
        decreases n - i,
    {
        v.push(0u8);
        i = i + 1;
        assert(v@ =~= start + Seq::new(i as nat, |k: int| 0u8));
    }
}

pub fn push_bytes(v: &mut Vec<u8>, bytes: &[u8])
    ensures
        final(v)@ == old(v)@ + bytes@,
{
    v.extend_from_slice(bytes);
}

pub fn read_u16(s: &[u8], o: usize) -> (r: u16)
    requires
        o + 2 <= s.len(),
    ensures
        r == de16(s@.subrange(o as int, o + 2)),
{
    vstd::bytes::u16_from_le_bytes(vstd::slice::slice_subrange(s, o, o + 2))
}

pub fn read_u32(s: &[u8], o: usize) -> (r: u32)
    requires
        o + 4 <= s.len(),
    ensures
        r == de32(s@.subrange(o as int, o + 4)),
{
    vstd::bytes::u32_from_le_bytes(vstd::slice::slice_subrange(s, o, o + 4))
}

pub fn read_u64(s: &[u8], o: usize) -> (r: u64)
    requires
        o + 8 <= s.len(),
    ensures
        r == de64(s@.subrange(o as int, o + 8)),
{
    vstd::bytes::u64_from_le_bytes(vstd::slice::slice_subrange(s, o, o + 8))
}

} // verus!
