//! Layer numbers in tensor names: `model.layers.12.mlp.weight` belongs to
//! layer 12. A name is split on `.`, and the first part that reads as a
//! `u32` (an optional `+`, then decimal digits) is its layer number.

use vstd::prelude::*;
use crate::text::utf8;
use crate::brain_pack::safetensors::SafetensorsTensorInfo;

verus! {

/// Position of the first `.` at or after `i`, or the length of `b`.
pub open spec fn dot_from(b: Seq<u8>, i: int) -> int
    decreases b.len() - i,
{
    if i < 0 || i >= b.len() {
        b.len() as int
    } else if b[i] == 0x2e {
        i
    } else {
        dot_from(b, i + 1)
    }
}

pub proof fn lemma_dot_from(b: Seq<u8>, i: int)
    requires
        0 <= i <= b.len(),
    ensures
        i <= dot_from(b, i) <= b.len(),
        dot_from(b, i) < b.len() ==> b[dot_from(b, i)] == 0x2e,
        forall|k: int| i <= k < dot_from(b, i) ==> b[k] != 0x2e,
    decreases b.len() - i,
{
    if i < b.len() && b[i] != 0x2e {
        lemma_dot_from(b, i + 1);
    }
}

pub open spec fn is_digit(c: u8) -> bool {
    0x30 <= c <= 0x39
}

pub open spec fn all_digits(p: Seq<u8>) -> bool {
    forall|k: int| 0 <= k < p.len() ==> is_digit(#[trigger] p[k])
}

/// Decimal value of a run of ASCII digits.
pub open spec fn digits_value(p: Seq<u8>) -> nat
    decreases p.len(),
{
    if p.len() == 0 {
        0
    } else {
        digits_value(p.drop_last()) * 10 + (p.last() - 0x30) as nat
    }
}

/// What `u32::from_str` makes of the bytes `p`: an optional `+`, then one or
/// more ASCII digits whose value fits in a `u32`.
pub open spec fn parse_u32(p: Seq<u8>) -> Option<u32> {
    let d = if p.len() > 0 && p[0] == 0x2b {
        p.drop_first()
    } else {
        p
    };
    if d.len() > 0 && all_digits(d) && digits_value(d) <= u32::MAX {
        Some(digits_value(d) as u32)
    } else {
        None
    }
}

/// Layer number found in the parts of `b` that start at `i` or later.
pub open spec fn layer_index_from(b: Seq<u8>, i: int) -> Option<u32>
    decreases b.len() - i,
{
    if i < 0 || i > b.len() {
        None
    } else {
        let e = dot_from(b, i);
        match parse_u32(b.subrange(i, e)) {
            Some(v) => Some(v),
            None => if e < b.len() {
                proof {
                    lemma_dot_from(b, i);
                }
                layer_index_from(b, e + 1)
            } else {
                None
            },
        }
    }
}

/// Layer number of a tensor name.
pub open spec fn layer_index(name: Seq<char>) -> Option<u32> {
    layer_index_from(utf8(name), 0)
}

proof fn lemma_digits_prefix(p: Seq<u8>, k: int)
    requires
        all_digits(p),
        0 <= k <= p.len(),
    ensures
        digits_value(p.subrange(0, k)) <= digits_value(p),
    decreases p.len(),
{
    if k < p.len() {
        let q = p.drop_last();
        assert(all_digits(q)) by {
            assert forall|j: int| 0 <= j < q.len() implies is_digit(#[trigger] q[j]) by {
                assert(q[j] == p[j]);
            }
        }
        lemma_digits_prefix(q, k);
        assert(q.subrange(0, k) =~= p.subrange(0, k));
    } else {
        assert(p.subrange(0, k) =~= p);
    }
}

/// Reads `b[s..e]` as a run of decimal digits.
fn read_digits(b: &[u8], s: usize, e: usize) -> (r: Option<u32>)
    requires
        s < e <= b@.len(),
    ensures
        r == (if all_digits(b@.subrange(s as int, e as int)) && digits_value(
            b@.subrange(s as int, e as int),
        ) <= u32::MAX {
            Some(digits_value(b@.subrange(s as int, e as int)) as u32)
        } else {
            None
        }),
{
    let ghost d = b@.subrange(s as int, e as int);
    let mut v: u64 = 0;
    let mut k: usize = s;
    while k < e
        invariant
            s <= k <= e <= b@.len(),
            d == b@.subrange(s as int, e as int),
            v <= u32::MAX,
            all_digits(b@.subrange(s as int, k as int)),
            v == digits_value(b@.subrange(s as int, k as int)),
        decreases e - k,
    {
        let c = b[k];
        if c < 0x30 || c > 0x39 {
            assert(!is_digit(d[k - s]));
            return None;
        }
        let ghost before = b@.subrange(s as int, k as int);
        let ghost after = b@.subrange(s as int, k + 1);
        assert(after.drop_last() =~= before);
        assert(all_digits(after)) by {
            assert forall|j: int| 0 <= j < after.len() implies is_digit(#[trigger] after[j]) by {
                if j < before.len() {
                    assert(after[j] == before[j]);
                }
            }
        }
        v = v * 10 + (c - 0x30) as u64;
        if v > 0xffff_ffff {
            proof {
                assert(d.subrange(0, k + 1 - s) =~= after);
                if all_digits(d) {
                    lemma_digits_prefix(d, k + 1 - s);
                }
            }
            return None;
        }
        k = k + 1;
    }
    assert(b@.subrange(s as int, k as int) =~= d);
    Some(v as u32)
}

/// `u32::from_str` on the bytes `b[i..e]`.
fn parse_part(b: &[u8], i: usize, e: usize) -> (r: Option<u32>)
    requires
        i <= e <= b@.len(),
    ensures
        r == parse_u32(b@.subrange(i as int, e as int)),
{
    let ghost p = b@.subrange(i as int, e as int);
    let mut s: usize = i;
    if s < e && b[s] == 0x2b {
        s = s + 1;
        assert(p.drop_first() =~= b@.subrange(s as int, e as int));
    } else {
        assert(p =~= b@.subrange(s as int, e as int));
    }
    if s == e {
        return None;
    }
    read_digits(b, s, e)
}

/// Layer number of a tensor name: the first `.`-separated part that reads
/// as a `u32`.
pub fn extract_layer_index(name: &str) -> (r: Option<u32>)
    ensures
        r == layer_index(name@),
{
    let b = name.as_bytes();
    let blen = b.len();
    let mut i: usize = 0;
    while i <= blen
        invariant
            blen == b@.len(),
            b@ == utf8(name@),
            i <= blen,
            layer_index(name@) == layer_index_from(b@, i as int),
        decreases blen - i,
    {
        let mut e: usize = i;
        while e < blen && b[e] != 0x2e
            invariant
                blen == b@.len(),
                i <= e <= blen,
                dot_from(b@, i as int) == dot_from(b@, e as int),
            decreases blen - e,
        {
            e = e + 1;
        }
        proof {
            lemma_dot_from(b@, i as int);
        }
        assert(e == dot_from(b@, i as int));
        let found = parse_part(b, i, e);
        if found.is_some() {
            return found;
        }
        if e == blen {
            return None;
        }
        i = e + 1;
    }
    None
}

/// The layer numbers that the names of `es[..n]` carry.
pub open spec fn layer_set(es: Seq<(String, SafetensorsTensorInfo)>, n: int) -> Set<u32> {
    Set::new(
        |v: u32| exists|k: int| 0 <= k < n && #[trigger] layer_index(es[k].0@) == Some(v),
    )
}

/// Number of distinct layer numbers among the tensor names.
pub fn count_layers(es: &Vec<(String, SafetensorsTensorInfo)>) -> (r: u32)
    ensures
        r == layer_set(es@, es@.len() as int).len() as u32,
{
    let mut seen: Vec<u32> = Vec::new();
    let mut i: usize = 0;
    while i < es.len()
        invariant
            i <= es@.len(),
            seen@.no_duplicates(),
            seen@.to_set() == layer_set(es@, i as int),
        decreases es@.len() - i,
    {
        let idx = extract_layer_index(es[i].0.as_str());
        let ghost old_seen = seen@;
        match idx {
            Some(v) => {
                let mut present = false;
                let mut j: usize = 0;
                while j < seen.len()
                    invariant
                        j <= seen@.len(),
                        present == (exists|k: int| 0 <= k < j && seen@[k] == v),
                    decreases seen@.len() - j,
                {
                    if seen[j] == v {
                        present = true;
                    }
                    j = j + 1;
                }
                if !present {
                    seen.push(v);
                    proof {
                        assert forall|a: int, b: int|
                            0 <= a < b < seen@.len() implies seen@[a] != seen@[b] by {
                            if b == seen@.len() - 1 {
                                assert(old_seen[a] == seen@[a]);
                            } else {
                                assert(old_seen[a] != old_seen[b]);
                            }
                        }
                    }
                }
                assert(seen@.to_set() =~= layer_set(es@, i + 1)) by {
                    assert forall|x: u32| seen@.to_set().contains(x) implies layer_set(
                        es@,
                        i + 1,
                    ).contains(x) by {
                        if old_seen.contains(x) {
                            assert(old_seen.to_set().contains(x));
                            let k = choose|k: int|
                                0 <= k < i && #[trigger] layer_index(es@[k].0@) == Some(x);
                            assert(0 <= k < i + 1 && layer_index(es@[k].0@) == Some(x));
                        } else {
                            assert(x == v);
                            assert(layer_index(es@[i as int].0@) == Some(x));
                        }
                    }
                    assert forall|x: u32| layer_set(es@, i + 1).contains(x) implies seen@.to_set().contains(x) by {
                        let k = choose|k: int|
                            0 <= k < i + 1 && #[trigger] layer_index(es@[k].0@) == Some(x);
                        if k < i {
                            assert(layer_set(es@, i as int).contains(x));
                            assert(old_seen.to_set().contains(x));
                            let m = choose|m: int| 0 <= m < old_seen.len() && old_seen[m] == x;
                            assert(seen@[m] == x);
                        } else if present {
                            let m = choose|m: int| 0 <= m < old_seen.len() && old_seen[m] == v;
                            assert(seen@[m] == x);
                        } else {
                            assert(seen@[seen@.len() - 1] == x);
                        }
                    }
                }
            },
            None => {
                assert(seen@.to_set() =~= layer_set(es@, i + 1)) by {
                    assert forall|x: u32| layer_set(es@, i + 1).contains(x) implies seen@.to_set().contains(x) by {
                        let k = choose|k: int|
                            0 <= k < i + 1 && #[trigger] layer_index(es@[k].0@) == Some(x);
                        assert(k < i);
                        assert(layer_set(es@, i as int).contains(x));
                    }
                    assert forall|x: u32| seen@.to_set().contains(x) implies layer_set(es@, i + 1).contains(x) by {
                        assert(layer_set(es@, i as int).contains(x));
                        let k = choose|k: int|
                            0 <= k < i && #[trigger] layer_index(es@[k].0@) == Some(x);
                        assert(0 <= k < i + 1);
                    }
                }
            },
        }
        i = i + 1;
    }
    proof {
        seen@.unique_seq_to_set();
    }
    seen.len() as u32
}

} // verus!
