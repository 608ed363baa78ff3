//! The shard index file: shard table plus tensor-name routes.

use vstd::prelude::*;
use vstd::utf8::{encode_utf8, decode_utf8, valid_utf8};
use crate::le_bytes::{
    le16, le64, de16, de64, lemma_le_lengths, lemma_le_roundtrip, push_u16, push_u64, push_bytes,
    read_u16, read_u64,
};
use crate::text::string_from_utf8;
use crate::brain_pack::format::{ShardDesc, SHARD_INDEX_MAGIC, lemma_shard_desc_roundtrip};

verus! {

/// Why a shard index could not be decoded.
#[derive(Debug, Clone, Copy, PartialEq, Eq, Structural)]
pub enum ShardIndexError {
    /// The bytes end before the record that was being read.
    Truncated,
    /// The file does not start with the shard index magic.
    BadMagic,
    /// A route name is not valid UTF-8.
    InvalidUtf8,
}

/// A route as plain values: tensor name and owning shard.
pub type RoutePair = (Seq<char>, u16);

/// Routes as a map; a later pair for the same name replaces an earlier one.
pub open spec fn route_map(p: Seq<RoutePair>) -> Map<Seq<char>, u16>
    decreases p.len(),
{
    if p.len() == 0 {
        Map::empty()
    } else {
        route_map(p.drop_last()).insert(p.last().0, p.last().1)
    }
}

/// No name occurs twice.
pub open spec fn names_distinct(p: Seq<RoutePair>) -> bool {
    forall|i: int, j: int| 0 <= i < j < p.len() ==> #[trigger] p[i].0 != #[trigger] p[j].0
}

/// Encoding of the shard table.
pub open spec fn shards_bytes(s: Seq<ShardDesc>) -> Seq<u8>
    decreases s.len(),
{
    if s.len() == 0 {
        Seq::empty()
    } else {
        shards_bytes(s.drop_last()) + s.last().spec_encode()
    }
}

/// Encoding of one route: shard id, name length, name bytes.
pub open spec fn route_bytes(r: RoutePair) -> Seq<u8> {
    le16(r.1) + le64(encode_utf8(r.0).len() as u64) + encode_utf8(r.0)
}

/// Encoding of the routes, in order.
pub open spec fn routes_bytes(p: Seq<RoutePair>) -> Seq<u8>
    decreases p.len(),
{
    if p.len() == 0 {
        Seq::empty()
    } else {
        route_bytes(p[0]) + routes_bytes(p.drop_first())
    }
}

/// Decoding of the route that starts at `pos`: name, shard id, next position.
pub open spec fn route_at(b: Seq<u8>, pos: int) -> Result<(Seq<char>, u16, int), ShardIndexError> {
    if pos + 10 > b.len() {
        Err(ShardIndexError::Truncated)
    } else {
        let n = de64(b.subrange(pos + 2, pos + 10)) as int;
        if pos + 10 + n > b.len() {
            Err(ShardIndexError::Truncated)
        } else if !valid_utf8(b.subrange(pos + 10, pos + 10 + n)) {
            Err(ShardIndexError::InvalidUtf8)
        } else {
            Ok(
                (
                    decode_utf8(b.subrange(pos + 10, pos + 10 + n)),
                    de16(b.subrange(pos, pos + 2)),
                    pos + 10 + n,
                ),
            )
        }
    }
}

/// Decoding of `count` consecutive routes starting at `pos`.
pub open spec fn parse_routes(b: Seq<u8>, pos: int, count: nat) -> Result<
    Seq<RoutePair>,
    ShardIndexError,
>
    decreases count,
{
    if count == 0 {
        Ok(Seq::empty())
    } else {
        match route_at(b, pos) {
            Err(e) => Err(e),
            Ok((name, id, next)) => match parse_routes(b, next, (count - 1) as nat) {
                Err(e) => Err(e),
                Ok(rest) => Ok(seq![(name, id)] + rest),
            },
        }
    }
}

/// Offset of the route count in an index with `num_shards` streaming shards.
pub open spec fn routes_offset(num_shards: u16) -> int {
    28 + 64 * (num_shards + 1)
}

/// What decoding `b` yields: the routes in file order, or the first failure.
pub open spec fn parse_index(b: Seq<u8>) -> Result<Seq<RoutePair>, ShardIndexError> {
    if b.len() < 8 {
        Err(ShardIndexError::Truncated)
    } else if b.subrange(0, 8) != SHARD_INDEX_MAGIC@ {
        Err(ShardIndexError::BadMagic)
    } else if b.len() < 28 {
        Err(ShardIndexError::Truncated)
    } else {
        let r = routes_offset(de16(b.subrange(10, 12)));
        if b.len() < r + 8 {
            Err(ShardIndexError::Truncated)
        } else {
            parse_routes(b, r + 8, de64(b.subrange(r, r + 8)) as nat)
        }
    }
}

/// Per-model index file. Tiny; stays permanently in RAM.
#[derive(Debug, Clone)]
pub struct ShardIndex {
    pub version: u16,
    pub num_shards: u16,
    /// Size of the always-resident base fragment (00.brain).
    pub base_header_size: u64,
    /// Max bytes per streaming shard (enforced).
    pub per_shard_max: u64,
    /// One entry per shard (length == num_shards + 1, index 0 == base).
    pub shards: Vec<ShardDesc>,
    /// Routing table: tensor name -> shard id, one entry per name.
    pub routes: Vec<(String, u16)>,
}

impl ShardIndex {
    /// The routes as plain values.
    pub open spec fn route_pairs(self) -> Seq<RoutePair> {
        self.routes@.map_values(|r: (String, u16)| (r.0@, r.1))
    }

    /// The routing table as a map.
    pub open spec fn route_table(self) -> Map<Seq<char>, u16> {
        route_map(self.route_pairs())
    }

    /// Every route name, in UTF-8, fits the 64-bit length field.
    pub open spec fn lengths_fit(self) -> bool {
        &&& self.routes@.len() <= u64::MAX
        &&& forall|i: int|
            0 <= i < self.routes@.len() ==> #[trigger] encode_utf8(self.routes@[i].0@).len()
                <= usize::MAX
    }

    /// The shard table has one record per shard plus the base, and no route
    /// name occurs twice.
    pub open spec fn well_formed(self) -> bool {
        &&& self.shards@.len() == self.num_shards + 1
        &&& names_distinct(self.route_pairs())
    }

    /// On-disk encoding.
    pub open spec fn spec_encode(self) -> Seq<u8> {
        SHARD_INDEX_MAGIC@ + le16(self.version) + le16(self.num_shards) + le64(
            self.base_header_size,
        ) + le64(self.per_shard_max) + shards_bytes(self.shards@) + le64(
            self.routes@.len() as u64,
        ) + routes_bytes(self.route_pairs())
    }

    /// `self` is what decoding `b` yields.
    pub open spec fn decodes_from(self, b: Seq<u8>) -> bool {
        &&& parse_index(b) is Ok
        &&& self.version == de16(b.subrange(8, 10))
        &&& self.num_shards == de16(b.subrange(10, 12))
        &&& self.base_header_size == de64(b.subrange(12, 20))
        &&& self.per_shard_max == de64(b.subrange(20, 28))
        &&& self.shards@.len() == self.num_shards + 1
        &&& forall|i: int|
            0 <= i < self.shards@.len() ==> #[trigger] self.shards@[i].decodes_from(
                b.subrange(28 + 64 * i, 92 + 64 * i),
            )
        &&& names_distinct(self.route_pairs())
        &&& self.route_table() == route_map(parse_index(b)->Ok_0)
    }
}


pub proof fn lemma_shards_bytes(s: Seq<ShardDesc>)
    ensures
        shards_bytes(s).len() == 64 * s.len(),
        forall|i: int|
            0 <= i < s.len() ==> #[trigger] shards_bytes(s).subrange(64 * i, 64 * i + 64)
                == s[i].spec_encode(),
    decreases s.len(),
{
    if s.len() > 0 {
        let p = s.drop_last();
        lemma_shards_bytes(p);
        lemma_shard_desc_roundtrip(s.last());
        let b = shards_bytes(s);
        assert forall|i: int| 0 <= i < s.len() implies #[trigger] b.subrange(64 * i, 64 * i + 64)
            == s[i].spec_encode() by {
            if i < p.len() {
                assert(b.subrange(64 * i, 64 * i + 64) =~= shards_bytes(p).subrange(
                    64 * i,
                    64 * i + 64,
                ));
            } else {
                assert(b.subrange(64 * i, 64 * i + 64) =~= s.last().spec_encode());
            }
        }
    }
}

pub proof fn lemma_routes_bytes_push(p: Seq<RoutePair>, x: RoutePair)
    ensures
        routes_bytes(p.push(x)) == routes_bytes(p) + route_bytes(x),
    decreases p.len(),
{
    if p.len() == 0 {
        assert(p.push(x).drop_first() =~= Seq::<RoutePair>::empty());
        assert(p.push(x)[0] == x);
        assert(routes_bytes(p.push(x)) == route_bytes(x) + routes_bytes(Seq::<RoutePair>::empty()));
        assert(routes_bytes(p.push(x)) =~= route_bytes(x));
    } else {
        lemma_routes_bytes_push(p.drop_first(), x);
        assert(p.push(x).drop_first() =~= p.drop_first().push(x));
        assert(routes_bytes(p.push(x)) =~= routes_bytes(p) + route_bytes(x));
    }
}

/// Replacing the shard of a name that occurs once updates the map at that name.
pub proof fn lemma_route_map_update(v: Seq<RoutePair>, j: int, id: u16)
    requires
        names_distinct(v),
        0 <= j < v.len(),
    ensures
        route_map(v.update(j, (v[j].0, id))) == route_map(v).insert(v[j].0, id),
        names_distinct(v.update(j, (v[j].0, id))),
    decreases v.len(),
{
    let u = v.update(j, (v[j].0, id));
    assert(names_distinct(u)) by {
        assert forall|a: int, b: int| 0 <= a < b < u.len() implies #[trigger] u[a].0
            != #[trigger] u[b].0 by {
            assert(u[a].0 == v[a].0 && u[b].0 == v[b].0);
        }
    }
    if j == v.len() - 1 {
        assert(u.drop_last() =~= v.drop_last());
        assert(route_map(u) =~= route_map(v).insert(v[j].0, id));
    } else {
        let d = v.drop_last();
        assert(names_distinct(d)) by {
            assert forall|a: int, b: int| 0 <= a < b < d.len() implies #[trigger] d[a].0
                != #[trigger] d[b].0 by {
                assert(d[a] == v[a] && d[b] == v[b]);
            }
        }
        lemma_route_map_update(d, j, id);
        assert(u.drop_last() =~= d.update(j, (d[j].0, id)));
        assert(v.last().0 != v[j].0);
        assert(route_map(u) =~= route_map(v).insert(v[j].0, id));
    }
}

/// Decoding the encoding of routes gives them back.
pub proof fn lemma_parse_routes_bytes(b: Seq<u8>, pos: int, p: Seq<RoutePair>)
    requires
        0 <= pos,
        pos + routes_bytes(p).len() <= b.len(),
        b.subrange(pos, pos + routes_bytes(p).len()) == routes_bytes(p),
        forall|i: int| 0 <= i < p.len() ==> #[trigger] encode_utf8(p[i].0).len() <= usize::MAX,
    ensures
        parse_routes(b, pos, p.len()) == Ok::<Seq<RoutePair>, ShardIndexError>(p),
    decreases p.len(),
{
    lemma_le_lengths();
    lemma_le_roundtrip();
    if p.len() > 0 {
        let x = p[0];
        let nb = encode_utf8(x.0);
        let n = nb.len();
        let rb = routes_bytes(p);
        let rest = p.drop_first();
        assert(rb == route_bytes(x) + routes_bytes(rest));
        assert(route_bytes(x).len() == 10 + n);
        assert(b.subrange(pos, pos + 2) =~= rb.subrange(0, 2));
        assert(rb.subrange(0, 2) =~= le16(x.1));
        assert(b.subrange(pos + 2, pos + 10) =~= rb.subrange(2, 10));
        assert(rb.subrange(2, 10) =~= le64(n as u64));
        assert(de64(b.subrange(pos + 2, pos + 10)) as int == n);
        assert(b.subrange(pos + 10, pos + 10 + n) =~= rb.subrange(10, 10 + n as int));
        assert(rb.subrange(10, 10 + n as int) =~= nb);
        vstd::utf8::encode_utf8_valid_utf8(x.0);
        vstd::utf8::encode_utf8_decode_utf8(x.0);
        assert(route_at(b, pos) == Ok::<(Seq<char>, u16, int), ShardIndexError>(
            (x.0, x.1, pos + 10 + n),
        ));
        let rr = routes_bytes(rest);
        assert(rb.len() == 10 + n + rr.len());
        assert(rb.subrange(10 + n as int, rb.len() as int) =~= rr);
        assert(b.subrange(pos + 10 + n, pos + 10 + n + rr.len()) =~= b.subrange(
            pos,
            pos + rb.len(),
        ).subrange(10 + n as int, rb.len() as int));
        assert(b.subrange(pos + 10 + n, pos + 10 + n + rr.len()) =~= rr);
        assert forall|i: int| 0 <= i < rest.len() implies #[trigger] encode_utf8(rest[i].0).len()
            <= usize::MAX by {
            assert(rest[i] == p[i + 1]);
        }
        lemma_parse_routes_bytes(b, pos + 10 + n, rest);
        assert(rest.len() == (p.len() - 1) as nat);
        assert(parse_routes(b, pos + 10 + n, (p.len() - 1) as nat) == Ok::<
            Seq<RoutePair>,
            ShardIndexError,
        >(rest));
        assert((x.0, x.1) == x);
        assert(seq![x] + rest =~= p);
        assert(parse_routes(b, pos, p.len()) == Ok::<Seq<RoutePair>, ShardIndexError>(
            seq![(x.0, x.1)] + rest,
        ));
    } else {
        assert(p =~= Seq::<RoutePair>::empty());
    }
}

/// Decoding an encoded index gives back its header, its shard records and its
/// routing table.
pub proof fn lemma_shard_index_roundtrip(idx: ShardIndex)
    requires
        idx.well_formed(),
        idx.lengths_fit(),
    ensures
        parse_index(idx.spec_encode()) == Ok::<Seq<RoutePair>, ShardIndexError>(
            idx.route_pairs(),
        ),
        de16(idx.spec_encode().subrange(8, 10)) == idx.version,
        de16(idx.spec_encode().subrange(10, 12)) == idx.num_shards,
        de64(idx.spec_encode().subrange(12, 20)) == idx.base_header_size,
        de64(idx.spec_encode().subrange(20, 28)) == idx.per_shard_max,
        forall|i: int|
            0 <= i < idx.shards@.len() ==> #[trigger] idx.spec_encode().subrange(
                28 + 64 * i,
                92 + 64 * i,
            ) == idx.shards@[i].spec_encode(),
{
    lemma_le_lengths();
    lemma_le_roundtrip();
    lemma_shards_bytes(idx.shards@);
    let e = idx.spec_encode();
    let sb = shards_bytes(idx.shards@);
    let ns = idx.num_shards;
    let r = routes_offset(ns);
    let p = idx.route_pairs();
    assert(SHARD_INDEX_MAGIC@.len() == 8);
    assert(e.subrange(0, 8) =~= SHARD_INDEX_MAGIC@);
    assert(e.subrange(8, 10) =~= le16(idx.version));
    assert(e.subrange(10, 12) =~= le16(ns));
    assert(e.subrange(12, 20) =~= le64(idx.base_header_size));
    assert(e.subrange(20, 28) =~= le64(idx.per_shard_max));
    assert(e.subrange(28, r) =~= sb);
    assert forall|i: int| 0 <= i < idx.shards@.len() implies #[trigger] e.subrange(
        28 + 64 * i,
        92 + 64 * i,
    ) == idx.shards@[i].spec_encode() by {
        assert(e.subrange(28 + 64 * i, 92 + 64 * i) =~= sb.subrange(64 * i, 64 * i + 64));
    }
    assert(e.subrange(r, r + 8) =~= le64(idx.routes@.len() as u64));
    let rb = routes_bytes(p);
    assert(e.subrange(r + 8, r + 8 + rb.len()) =~= rb);
    assert forall|i: int| 0 <= i < p.len() implies #[trigger] encode_utf8(p[i].0).len()
        <= usize::MAX by {
        assert(p[i].0 == idx.routes@[i].0@);
    }
    lemma_parse_routes_bytes(e, r + 8, p);
}

/// Decoding routes from bytes that end inside their encoding fails.
proof fn lemma_parse_routes_cut(b: Seq<u8>, pos: int, p: Seq<RoutePair>)
    requires
        0 <= pos <= b.len(),
        b.len() < pos + routes_bytes(p).len(),
        b.subrange(pos, b.len() as int) == routes_bytes(p).subrange(0, b.len() - pos),
        forall|i: int| 0 <= i < p.len() ==> #[trigger] encode_utf8(p[i].0).len() <= usize::MAX,
    ensures
        parse_routes(b, pos, p.len()) is Err,
    decreases p.len(),
{
    lemma_le_lengths();
    lemma_le_roundtrip();
    if p.len() == 0 {
        assert(routes_bytes(p).len() == 0);
    } else {
        let x = p[0];
        let nb = encode_utf8(x.0);
        let n = nb.len();
        let rb = routes_bytes(p);
        let rest = p.drop_first();
        let rr = routes_bytes(rest);
        assert(rb == route_bytes(x) + rr);
        assert(route_bytes(x).len() == 10 + n);
        assert forall|k: int| 0 <= k < b.len() - pos implies #[trigger] b[pos + k] == rb[k] by {
            assert(b.subrange(pos, b.len() as int)[k] == b[pos + k]);
            assert(rb.subrange(0, b.len() - pos)[k] == rb[k]);
        }
        if pos + 10 > b.len() {
        } else {
            assert forall|k: int| 0 <= k < 8 implies #[trigger] b.subrange(pos + 2, pos + 10)[k]
                == rb.subrange(2, 10)[k] by {
                assert(b[pos + (2 + k)] == rb[2 + k]);
            }
            assert(b.subrange(pos + 2, pos + 10) =~= rb.subrange(2, 10));
            assert(rb.subrange(2, 10) =~= le64(n as u64));
            if pos + 10 + n > b.len() {
            } else {
                assert forall|k: int| 0 <= k < n implies #[trigger] b.subrange(pos + 10, pos + 10 + n)[k]
                    == rb.subrange(10, 10 + n as int)[k] by {
                    assert(b[pos + (10 + k)] == rb[10 + k]);
                }
                assert(b.subrange(pos + 10, pos + 10 + n) =~= rb.subrange(10, 10 + n as int));
                assert(rb.subrange(10, 10 + n as int) =~= nb);
                vstd::utf8::encode_utf8_valid_utf8(x.0);
                assert(route_at(b, pos) is Ok);
                assert(route_at(b, pos)->Ok_0.2 == pos + 10 + n);
                let q = pos + 10 + n;
                assert forall|k: int| 0 <= k < b.len() - q implies #[trigger] b.subrange(
                    q,
                    b.len() as int,
                )[k] == rr.subrange(0, b.len() - q)[k] by {
                    assert(b[pos + (10 + n + k)] == rb[10 + n + k]);
                    assert(rb[10 + n + k] == rr[k]);
                }
                assert(b.subrange(q, b.len() as int) =~= rr.subrange(0, b.len() - q));
                assert forall|i: int| 0 <= i < rest.len() implies #[trigger] encode_utf8(
                    rest[i].0,
                ).len() <= usize::MAX by {
                    assert(rest[i] == p[i + 1]);
                }
                lemma_parse_routes_cut(b, q, rest);
            }
        }
    }
}

/// Decoding refuses every proper prefix of an index's encoding.
pub proof fn lemma_shard_index_prefix_refused(idx: ShardIndex, n: int)
    requires
        idx.well_formed(),
        idx.lengths_fit(),
        0 <= n < idx.spec_encode().len(),
    ensures
        parse_index(idx.spec_encode().subrange(0, n)) is Err,
{
    lemma_le_lengths();
    lemma_le_roundtrip();
    lemma_shards_bytes(idx.shards@);
    let e = idx.spec_encode();
    let b = e.subrange(0, n);
    let ns = idx.num_shards;
    let r = routes_offset(ns);
    let p = idx.route_pairs();
    let rb = routes_bytes(p);
    assert(SHARD_INDEX_MAGIC@.len() == 8);
    assert(e.len() == r + 8 + rb.len());
    if n >= 8 {
        assert(b.subrange(0, 8) =~= e.subrange(0, 8));
        assert(e.subrange(0, 8) =~= SHARD_INDEX_MAGIC@);
        if n >= 28 {
            assert(b.subrange(10, 12) =~= e.subrange(10, 12));
            assert(e.subrange(10, 12) =~= le16(ns));
            if n >= r + 8 {
                assert(b.subrange(r, r + 8) =~= e.subrange(r, r + 8));
                assert(e.subrange(r, r + 8) =~= le64(idx.routes@.len() as u64));
                assert(e.subrange(r + 8, r + 8 + rb.len()) =~= rb);
                assert(b.subrange(r + 8, n) =~= rb.subrange(0, n - r - 8));
                assert forall|i: int| 0 <= i < p.len() implies #[trigger] encode_utf8(
                    p[i].0,
                ).len() <= usize::MAX by {
                    assert(p[i].0 == idx.routes@[i].0@);
                }
                lemma_parse_routes_cut(b, r + 8, p);
            }
        }
    }
}

/// Position of the route named `name`, if there is one.
fn find_route(routes: &Vec<(String, u16)>, name: &String) -> (r: Option<usize>)
    ensures
        match r {
            Some(q) => q < routes@.len() && routes@[q as int].0@ == name@,
            None => forall|m: int| 0 <= m < routes@.len() ==> #[trigger] routes@[m].0@ != name@,
        },
{
    let mut q: usize = 0;
    while q < routes.len()
        invariant
            q <= routes@.len(),
            forall|m: int| 0 <= m < q ==> #[trigger] routes@[m].0@ != name@,
        decreases routes@.len() - q,
    {
        if routes[q].0 == *name {
            return Some(q);
        }
        q = q + 1;
    }
    None
}

impl ShardIndex {
    pub fn to_bytes(&self) -> (r: Vec<u8>)
        ensures
            r@ == self.spec_encode(),
    {
        let mut buf: Vec<u8> = Vec::new();
        push_bytes(&mut buf, SHARD_INDEX_MAGIC.as_slice());
        push_u16(&mut buf, self.version);
        push_u16(&mut buf, self.num_shards);
        push_u64(&mut buf, self.base_header_size);
        push_u64(&mut buf, self.per_shard_max);
        let ghost head = buf@;
        let mut i: usize = 0;
        while i < self.shards.len()
            invariant
                i <= self.shards@.len(),
                buf@ == head + shards_bytes(self.shards@.subrange(0, i as int)),
            decreases self.shards@.len() - i,
        {
            assert(self.shards@.subrange(0, i + 1 as int).drop_last() =~= self.shards@.subrange(
                0,
                i as int,
            ));
            let rec = self.shards[i].to_bytes();
            push_bytes(&mut buf, rec.as_slice());
            i = i + 1;
        }
        assert(self.shards@.subrange(0, self.shards@.len() as int) =~= self.shards@);
        push_u64(&mut buf, self.routes.len() as u64);
        let ghost mid = buf@;
        let ghost p = self.route_pairs();
        let mut j: usize = 0;
        while j < self.routes.len()
            invariant
                j <= self.routes@.len(),
                p == self.route_pairs(),
                buf@ == mid + routes_bytes(p.subrange(0, j as int)),
            decreases self.routes@.len() - j,
        {
            let name = &self.routes[j].0;
            let bytes = name.as_str().as_bytes();
            proof {
                lemma_routes_bytes_push(p.subrange(0, j as int), p[j as int]);
                assert(p.subrange(0, j as int).push(p[j as int]) =~= p.subrange(0, j + 1 as int));
            }
            push_u16(&mut buf, self.routes[j].1);
            push_u64(&mut buf, bytes.len() as u64);
            push_bytes(&mut buf, bytes);
            j = j + 1;
        }
        assert(p.subrange(0, p.len() as int) =~= p);
        buf
    }

    pub fn from_bytes(bytes: &[u8]) -> (r: Result<Self, ShardIndexError>)
        ensures
            match r {
                Ok(idx) => idx.decodes_from(bytes@),
                Err(e) => parse_index(bytes@) == Err::<Seq<RoutePair>, ShardIndexError>(e),
            },
    {
        let len = bytes.len();
        let ghost b = bytes@;
        if len < 8 {
            return Err(ShardIndexError::Truncated);
        }
        let mut k: usize = 0;
        while k < 8
            invariant
                k <= 8,
                b == bytes@,
                len == b.len(),
                len >= 8,
                forall|m: int| 0 <= m < k ==> b[m] == SHARD_INDEX_MAGIC@[m],
            decreases 8 - k,
        {
            if bytes[k] != SHARD_INDEX_MAGIC[k] {
                assert(b.subrange(0, 8)[k as int] != SHARD_INDEX_MAGIC@[k as int]);
                return Err(ShardIndexError::BadMagic);
            }
            k = k + 1;
        }
        assert(b.subrange(0, 8) =~= SHARD_INDEX_MAGIC@);
        if len < 28 {
            return Err(ShardIndexError::Truncated);
        }
        let version = read_u16(bytes, 8);
        let num_shards = read_u16(bytes, 10);
        let base_header_size = read_u64(bytes, 12);
        let per_shard_max = read_u64(bytes, 20);
        let total = num_shards as usize + 1;
        let ro: usize = 28 + 64 * total;
        if len < ro || len - ro < 8 {
            return Err(ShardIndexError::Truncated);
        }
        let mut shards: Vec<ShardDesc> = Vec::new();
        let mut i: usize = 0;
        while i < total
            invariant
                i <= total,
                total == num_shards + 1,
                b == bytes@,
                len == b.len(),
                ro == 28 + 64 * total,
                ro <= len,
                shards@.len() == i,
                forall|m: int|
                    0 <= m < i ==> #[trigger] shards@[m].decodes_from(
                        b.subrange(28 + 64 * m, 92 + 64 * m),
                    ),
            decreases total - i,
        {
            let mut rec = [0u8; 64];
            let base = 28 + 64 * i;
            let mut t: usize = 0;
            while t < 64
                invariant
                    t <= 64,
                    base == 28 + 64 * i,
                    base + 64 <= len,
                    b == bytes@,
                    len == b.len(),
                    rec@.len() == 64,
                    forall|m: int| 0 <= m < t ==> rec@[m] == b[base + m],
                decreases 64 - t,
            {
                rec[t] = bytes[base + t];
                t = t + 1;
            }
            assert(rec@ =~= b.subrange(base as int, base + 64));
            shards.push(ShardDesc::from_bytes(&rec));
            i = i + 1;
        }
        let count = read_u64(bytes, ro);
        let ghost pos0 = ro + 8;
        let mut pos: usize = ro + 8;
        let mut read: u64 = 0;
        let ghost mut parsed: Seq<RoutePair> = Seq::empty();
        let mut routes: Vec<(String, u16)> = Vec::new();
        assert(parse_index(b) == parse_routes(b, pos0 as int, count as nat));
        while read < count
            invariant
                b == bytes@,
                len == b.len(),
                pos <= len,
                read <= count,
                parse_index(b) == parse_routes(b, pos0 as int, count as nat),
                parse_routes(b, pos0 as int, count as nat) == match parse_routes(
                    b,
                    pos as int,
                    (count - read) as nat,
                ) {
                    Ok(rest) => Ok::<Seq<RoutePair>, ShardIndexError>(parsed + rest),
                    Err(e) => Err(e),
                },
                names_distinct(routes@.map_values(|r: (String, u16)| (r.0@, r.1))),
                route_map(routes@.map_values(|r: (String, u16)| (r.0@, r.1))) == route_map(parsed),
            decreases count - read,
        {
            let ghost rem = (count - read) as nat;
            assert(parse_routes(b, pos as int, rem) == match route_at(b, pos as int) {
                Err(e) => Err(e),
                Ok((name, id, next)) => match parse_routes(b, next, (rem - 1) as nat) {
                    Err(e) => Err(e),
                    Ok(rest) => Ok::<Seq<RoutePair>, ShardIndexError>(seq![(name, id)] + rest),
                },
            });
            if len - pos < 10 {
                return Err(ShardIndexError::Truncated);
            }
            let shard_id = read_u16(bytes, pos);
            let name_len = read_u64(bytes, pos + 2);
            if name_len > (len - pos - 10) as u64 {
                return Err(ShardIndexError::Truncated);
            }
            let start = pos + 10;
            let end = start + name_len as usize;
            let name_bytes = vstd::slice::slice_subrange(bytes, start, end);
            let name = match string_from_utf8(vstd::slice::slice_to_vec(name_bytes)) {
                Some(s) => s,
                None => {
                    return Err(ShardIndexError::InvalidUtf8);
                },
            };
            proof {
                vstd::utf8::decode_utf8_encode_utf8(name_bytes@);
                vstd::utf8::encode_utf8_decode_utf8(name@);
            }
            assert(name@ == decode_utf8(b.subrange(start as int, end as int)));
            let ghost name_at = name@;
            let ghost old_pairs = routes@.map_values(|r: (String, u16)| (r.0@, r.1));
            let ghost old_parsed = parsed;
            let found = find_route(&routes, &name);
            proof {
                parsed = parsed.push((name@, shard_id));
                assert(parsed.drop_last() =~= old_parsed);
            }
            match found {
                Some(q) => {
                    let ghost nm = old_pairs[q as int].0;
                    proof {
                        lemma_route_map_update(old_pairs, q as int, shard_id);
                    }
                    routes.set(q, (name, shard_id));
                    assert(routes@.map_values(|r: (String, u16)| (r.0@, r.1)) =~= old_pairs.update(
                        q as int,
                        (nm, shard_id),
                    ));
                },
                None => {
                    let ghost nm = name@;
                    routes.push((name, shard_id));
                    let ghost np = routes@.map_values(|r: (String, u16)| (r.0@, r.1));
                    assert(np =~= old_pairs.push((nm, shard_id)));
                    assert(np.drop_last() =~= old_pairs);
                    assert(names_distinct(np)) by {
                        assert forall|a: int, c: int| 0 <= a < c < np.len() implies #[trigger] np[a].0
                            != #[trigger] np[c].0 by {
                            assert(np[a] == old_pairs[a]);
                            if c == np.len() - 1 {
                                assert(np[c].0 == nm);
                            } else {
                                assert(np[c] == old_pairs[c]);
                            }
                        }
                    }
                },
            }
            assert(route_at(b, pos as int) == Ok::<(Seq<char>, u16, int), ShardIndexError>(
                (name_at, shard_id, end as int),
            ));
            assert forall|rest: Seq<RoutePair>| #[trigger] (parsed + rest) == old_parsed + (seq![
                (name_at, shard_id),
            ] + rest) by {
                assert(parsed + rest =~= old_parsed + (seq![(name_at, shard_id)] + rest));
            }
            pos = end;
            read = read + 1;
        }
        assert(parse_routes(b, pos as int, 0) == Ok::<Seq<RoutePair>, ShardIndexError>(
            Seq::empty(),
        ));
        assert(parsed + Seq::<RoutePair>::empty() =~= parsed);
        let idx = ShardIndex { version, num_shards, base_header_size, per_shard_max, shards, routes };
        assert(idx.route_pairs() =~= routes@.map_values(|r: (String, u16)| (r.0@, r.1)));
        Ok(idx)
    }
}

} // verus!
