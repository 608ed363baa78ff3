//! N-gram continuation index for speculative decoding.
//!
//! Every inserted context `[.., c]` records, for each order `o` up to the
//! configured maximum, that the `o - 1` tokens before `c` were followed by
//! `c`. Lookups back off from the highest order to order 1 (the empty
//! prefix). The table is capped: when it grows past `max_entries`, the keys
//! touched longest ago are evicted.

use vstd::prelude::*;

verus! {

/// FNV-1a offset basis.
pub const FNV_OFFSET: u64 = 0xcbf29ce484222325;

/// FNV-1a prime.
pub const FNV_PRIME: u64 = 0x100000001b3;

/// Most continuations kept per prefix.
pub const MAX_CONTINUATIONS: usize = 16;

/// One FNV-1a step: mix in `x`, then multiply (wrapping).
pub open spec fn fnv_step(h: u64, x: u64) -> u64 {
    vstd::wrapping::u64_specs::wrapping_mul(h ^ x, FNV_PRIME)
}

/// FNV-1a of the order, then of each token.
pub open spec fn fnv_tokens(tokens: Seq<u32>, order: u64) -> u64
    decreases tokens.len(),
{
    if tokens.len() == 0 {
        fnv_step(FNV_OFFSET, order)
    } else {
        fnv_step(fnv_tokens(tokens.drop_last(), order), tokens.last() as u64)
    }
}

/// Four 16-bit fields packed into one number, the first highest.
pub open spec fn pack4(a: u32, b: u32, c: u32, d: u32) -> int {
    a * 0x1_0000_0000_0000 + b * 0x1_0000_0000 + c * 0x1_0000 + d
}

/// Hash key of an n-gram prefix.
#[derive(Debug, Clone, Copy, PartialEq, Eq, Hash, Structural)]
pub struct NgramKey(pub u64);

impl NgramKey {
    /// FNV-1a over the order and the tokens; the order keeps a prefix of one
    /// order apart from the same tokens at another.
    pub fn from_tokens(tokens: &[u32], max_order: usize) -> (r: NgramKey)
        ensures
            r.0 == fnv_tokens(tokens@, max_order as u64),
    {
        let mut hash: u64 = FNV_OFFSET;
        hash = hash ^ (max_order as u64);
        hash = hash.wrapping_mul(FNV_PRIME);
        let mut i: usize = 0;
        while i < tokens.len()
            invariant
                i <= tokens@.len(),
                hash == fnv_tokens(tokens@.subrange(0, i as int), max_order as u64),
            decreases tokens@.len() - i,
        {
            assert(tokens@.subrange(0, i + 1).drop_last() =~= tokens@.subrange(0, i as int));
            hash = hash ^ (tokens[i] as u64);
            hash = hash.wrapping_mul(FNV_PRIME);
            i = i + 1;
        }
        assert(tokens@.subrange(0, tokens@.len() as int) =~= tokens@);
        NgramKey(hash)
    }

    /// Exact key of a 4-gram of tokens below 65536: the tokens as four
    /// 16-bit fields, first token highest.
    pub fn from_4gram(tokens: &[u32]) -> (r: Option<NgramKey>)
        ensures
            (tokens@.len() == 4 && forall|i: int| 0 <= i < 4 ==> #[trigger] tokens@[i] <= 0xFFFF)
                ==> (r matches Some(k) && k.0 == pack4(tokens@[0], tokens@[1], tokens@[2], tokens@[3])),
            !(tokens@.len() == 4 && forall|i: int| 0 <= i < 4 ==> #[trigger] tokens@[i] <= 0xFFFF)
                ==> r is None,
    {
        if tokens.len() != 4 {
            return None;
        }
        let mut i: usize = 0;
        while i < 4
            invariant
                tokens@.len() == 4,
                i <= 4,
                forall|k: int| 0 <= k < i ==> #[trigger] tokens@[k] <= 0xFFFF,
            decreases 4 - i,
        {
            if tokens[i] > 0xFFFF {
                return None;
            }
            i = i + 1;
        }
        let a = tokens[0] as u64;
        let b = tokens[1] as u64;
        let c = tokens[2] as u64;
        let d = tokens[3] as u64;
        let packed = (a << 48) | (b << 32) | (c << 16) | d;
        assert(packed == a * 0x1_0000_0000_0000u64 + b * 0x1_0000_0000u64 + c * 0x1_0000u64 + d) by (bit_vector)
            requires
                a <= 0xFFFF,
                b <= 0xFFFF,
                c <= 0xFFFF,
                d <= 0xFFFF,
                packed == (a << 48) | (b << 32) | (c << 16) | d,
        ;
        Some(NgramKey(packed))
    }
}

/// The 16-bit field `i` (0 is the highest) of a packed 4-gram key.
pub open spec fn field_of(key: u64, i: u32) -> u64 {
    (key >> (48 - 16 * i) as u64) & 0xFFFF
}

/// The 16-bit field `i` (0 is the highest) of a packed 4-gram key.
pub fn key_field(key: NgramKey, i: u32) -> (r: u32)
    requires
        i < 4,
    ensures
        r == field_of(key.0, i),
{
    let shift: u64 = (48 - 16 * i) as u64;
    let k = key.0;
    let v: u64 = (k >> shift) & 0xFFFF;
    assert(v <= 0xFFFF) by (bit_vector)
        requires
            v == (k >> shift) & 0xFFFF,
    ;
    v as u32
}

/// A packed 4-gram key gives back its tokens, field by field.
pub proof fn lemma_4gram_fields(a: u32, b: u32, c: u32, d: u32)
    requires
        a <= 0xFFFF,
        b <= 0xFFFF,
        c <= 0xFFFF,
        d <= 0xFFFF,
    ensures
        field_of(pack4(a, b, c, d) as u64, 0) == a,
        field_of(pack4(a, b, c, d) as u64, 1) == b,
        field_of(pack4(a, b, c, d) as u64, 2) == c,
        field_of(pack4(a, b, c, d) as u64, 3) == d,
{
    let k: u64 = pack4(a, b, c, d) as u64;
    assert(pack4(a, b, c, d) <= u64::MAX);
    assert(k == pack4(a, b, c, d));
    assert((k >> 48u64) & 0xFFFF == a as u64 && (k >> 32u64) & 0xFFFF == b as u64 && (k >> 16u64) & 0xFFFF == c as u64
        && (k >> 0u64) & 0xFFFF == d as u64) by (bit_vector)
        requires
            a <= 0xFFFF,
            b <= 0xFFFF,
            c <= 0xFFFF,
            d <= 0xFFFF,
            k == (a as u64) * 0x1_0000_0000_0000u64 + (b as u64) * 0x1_0000_0000u64 + (c as u64)
                * 0x1_0000u64 + (d as u64),
    ;
}

} // verus!
