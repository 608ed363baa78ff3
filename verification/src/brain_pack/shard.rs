//! Splitting a container into a resident base fragment and streaming shards.
//!
//! Tensors whose lowercased name starts with `embed` or `token_emb`, or
//! mentions `attention`, `attn`, `norm` or `rope`, stay in shard 0. Every
//! other tensor (the first of each name) goes to the streaming shards 1 to
//! 15, in order, each filled up to `SHARD_MAX_BYTES` before the next is
//! opened. A layout in which some streaming shard would hold more than
//! `SHARD_MAX_BYTES` is refused.

use vstd::prelude::*;
use crate::text::{utf8, has_infix, has_prefix, bytes_start_with, ascii_lower_seq, ascii_lowercase_bytes, bytes_contain, str_eq};
use crate::le_bytes::{
    le64, le32, le64_seq, le32_seq, de64, de32, lemma_le_lengths, lemma_le_roundtrip, lemma_le64_seq,
    lemma_le32_seq, push_u64, push_zeros, push_bytes, read_u64, read_u32,
};
use crate::brain_pack::container::shape8;
use crate::brain_pack::format::{TensorInfo, TensorIndexEntry, NUM_SHARDS, SHARD_MAX_BYTES};
use crate::brain_pack::pack::{
    BrainPack, BrainPackBuilder, PackError, pad_len, pad_to, zeros, first_named, placed_tensor, checksum_text,
};
use crate::brain_pack::format::BRAIN_VERSION;
use crate::brain_pack::shard_index::{RoutePair, route_map, names_distinct};

verus! {

/// Whether a tensor of this name belongs to the resident base fragment.
pub open spec fn resident_name(name: Seq<char>) -> bool {
    let n = ascii_lower_seq(utf8(name));
    ||| has_prefix(n, utf8("embed"@))
    ||| has_prefix(n, utf8("token_emb"@))
    ||| has_infix(n, utf8("attention"@))
    ||| has_infix(n, utf8("attn"@))
    ||| has_infix(n, utf8("norm"@))
    ||| has_infix(n, utf8("rope"@))
}

/// Whether a tensor of this name belongs to the resident base fragment.
pub fn is_resident_tensor(name: &str) -> (r: bool)
    ensures
        r == resident_name(name@),
{
    let lower = ascii_lowercase_bytes(name.as_bytes());
    let n = lower.as_slice();
    bytes_start_with(n, "embed".as_bytes()) || bytes_start_with(n, "token_emb".as_bytes())
        || bytes_contain(n, "attention".as_bytes()) || bytes_contain(n, "attn".as_bytes())
        || bytes_contain(n, "norm".as_bytes()) || bytes_contain(n, "rope".as_bytes())
}

/// No earlier tensor has the same name.
pub open spec fn first_occurrence(ts: Seq<TensorInfo>, i: int) -> bool {
    forall|j: int| 0 <= j < i ==> #[trigger] ts[j].name@ != ts[i].name@
}

/// Tensor `i` is placed in a streaming shard.
pub open spec fn streaming(ts: Seq<TensorInfo>, i: int) -> bool {
    !resident_name(ts[i].name@) && first_occurrence(ts, i)
}

/// Open streaming shard and its fill level after the first `k` tensors.
pub open spec fn stream_state(ts: Seq<TensorInfo>, k: nat) -> (int, int)
    decreases k,
{
    if k == 0 {
        (1, 0)
    } else {
        let prev = stream_state(ts, (k - 1) as nat);
        let i = k - 1;
        if !streaming(ts, i) {
            prev
        } else {
            let sz = ts[i].size_bytes as int;
            if prev.1 + sz > SHARD_MAX_BYTES && prev.0 < NUM_SHARDS {
                (prev.0 + 1, sz)
            } else {
                (prev.0, prev.1 + sz)
            }
        }
    }
}

/// The shard that tensor `i` is stored in, if it is stored (a later tensor
/// of an already routed streaming name is not).
pub open spec fn owner(ts: Seq<TensorInfo>, i: int) -> Option<u16> {
    if resident_name(ts[i].name@) {
        Some(0u16)
    } else if first_occurrence(ts, i) {
        Some(stream_state(ts, (i + 1) as nat).0 as u16)
    } else {
        None
    }
}

/// Positions among the first `k` tensors that shard `s` stores, in order.
pub open spec fn owned_by(ts: Seq<TensorInfo>, s: u16, k: nat) -> Seq<usize>
    decreases k,
{
    if k == 0 {
        Seq::empty()
    } else {
        owned_by(ts, s, (k - 1) as nat) + if owner(ts, k - 1) == Some(s) {
            seq![(k - 1) as usize]
        } else {
            Seq::empty()
        }
    }
}

/// Payload bytes that shard `s` receives from the first `k` tensors.
pub open spec fn shard_load(ts: Seq<TensorInfo>, s: u16, k: nat) -> int
    decreases k,
{
    if k == 0 {
        0
    } else {
        shard_load(ts, s, (k - 1) as nat) + if owner(ts, k - 1) == Some(s) {
            ts[k - 1].size_bytes as int
        } else {
            0
        }
    }
}

/// The routes of the first `k` tensors: one per name, in first-seen order.
pub open spec fn planned_routes(ts: Seq<TensorInfo>, k: nat) -> Seq<RoutePair>
    decreases k,
{
    if k == 0 {
        Seq::empty()
    } else {
        planned_routes(ts, (k - 1) as nat) + if first_occurrence(ts, k - 1) {
            seq![(ts[k - 1].name@, owner(ts, k - 1)->Some_0)]
        } else {
            Seq::empty()
        }
    }
}

/// Total payload size of the first `k` tensors.
pub open spec fn size_prefix(ts: Seq<TensorInfo>, k: nat) -> int
    decreases k,
{
    if k == 0 {
        0
    } else {
        size_prefix(ts, (k - 1) as nat) + ts[k - 1].size_bytes
    }
}

proof fn lemma_size_prefix_mono(ts: Seq<TensorInfo>, i: nat, j: nat)
    requires
        i <= j,
    ensures
        size_prefix(ts, i) <= size_prefix(ts, j),
    decreases j - i,
{
    if i < j {
        lemma_size_prefix_mono(ts, i, (j - 1) as nat);
    }
}

pub(crate) proof fn lemma_stream_state_bounds(ts: Seq<TensorInfo>, k: nat)
    requires
        k <= ts.len(),
    ensures
        1 <= stream_state(ts, k).0 <= NUM_SHARDS,
        0 <= stream_state(ts, k).1 <= size_prefix(ts, k),
    decreases k,
{
    if k > 0 {
        lemma_stream_state_bounds(ts, (k - 1) as nat);
    }
}

/// Position of an earlier tensor of the same name, if any.
fn earlier_same_name(ts: &Vec<TensorInfo>, i: usize) -> (r: bool)
    requires
        i < ts@.len(),
    ensures
        r == !first_occurrence(ts@, i as int),
{
    let mut j: usize = 0;
    while j < i
        invariant
            i < ts@.len(),
            j <= i,
            forall|k: int| 0 <= k < j ==> #[trigger] ts@[k].name@ != ts@[i as int].name@,
        decreases i - j,
    {
        if str_eq(ts[j].name.as_str(), ts[i].name.as_str()) {
            return true;
        }
        j = j + 1;
    }
    false
}

/// Every streaming tensor among the first `k` leaves its shard at or under
/// `SHARD_MAX_BYTES`.
pub open spec fn fits_upto(ts: Seq<TensorInfo>, k: nat) -> bool {
    forall|i: int|
        0 <= i < k && #[trigger] streaming(ts, i) ==> stream_state(ts, (i + 1) as nat).1
            <= SHARD_MAX_BYTES
}

/// The layout of `ts` keeps every streaming shard at or under
/// `SHARD_MAX_BYTES` within the fifteen streaming shards.
pub open spec fn plan_fits(ts: Seq<TensorInfo>) -> bool {
    fits_upto(ts, ts.len())
}

/// The shard of every tensor, or `None` for a later tensor of a streaming
/// name that is already routed; `None` as a whole when the layout does not
/// fit.
pub fn tensor_owners(ts: &Vec<TensorInfo>) -> (r: Option<Vec<Option<u16>>>)
    requires
        size_prefix(ts@, ts@.len()) <= u64::MAX,
    ensures
        r is Some <==> plan_fits(ts@),
        r matches Some(v) ==> v@.len() == ts@.len() && forall|i: int|
            0 <= i < ts@.len() ==> #[trigger] v@[i] == owner(ts@, i),
{
    let n = ts.len();
    let mut owners: Vec<Option<u16>> = Vec::new();
    let mut cur: u16 = 1;
    let mut fill: u64 = 0;
    let mut i: usize = 0;
    while i < n
        invariant
            n == ts@.len(),
            i <= n,
            size_prefix(ts@, n as nat) <= u64::MAX,
            owners@.len() == i,
            forall|k: int| 0 <= k < i ==> #[trigger] owners@[k] == owner(ts@, k),
            stream_state(ts@, i as nat) == (cur as int, fill as int),
            fits_upto(ts@, i as nat),
        decreases n - i,
    {
        proof {
            lemma_stream_state_bounds(ts@, i as nat);
            lemma_size_prefix_mono(ts@, (i + 1) as nat, n as nat);
        }
        let t = &ts[i];
        if is_resident_tensor(t.name.as_str()) {
            owners.push(Some(0u16));
        } else if earlier_same_name(ts, i) {
            owners.push(None);
        } else {
            if fill + t.size_bytes > SHARD_MAX_BYTES && cur < NUM_SHARDS {
                cur = cur + 1;
                fill = 0;
            }
            fill = fill + t.size_bytes;
            if fill > SHARD_MAX_BYTES {
                proof {
                    assert(streaming(ts@, i as int));
                }
                return None;
            }
            owners.push(Some(cur));
        }
        i = i + 1;
    }
    Some(owners)
}

/// Where each tensor of a container goes.
pub struct ShardPlan {
    /// Positions of the tensors each shard stores, shard 0 first.
    pub shard_tensors: Vec<Vec<usize>>,
    /// Tensor name to shard, one route per name.
    pub routes: Vec<(String, u16)>,
}

impl ShardPlan {
    /// The routes as plain pairs.
    pub open spec fn route_pairs(self) -> Seq<RoutePair> {
        self.routes@.map_values(|r: (String, u16)| (r.0@, r.1))
    }

    /// The plan that `plan_shards` makes for tensors `ts`.
    pub open spec fn describes(self, ts: Seq<TensorInfo>) -> bool {
        &&& self.shard_tensors@.len() == NUM_SHARDS + 1
        &&& forall|s: int|
            0 <= s <= NUM_SHARDS ==> #[trigger] self.shard_tensors@[s]@ == owned_by(
                ts,
                s as u16,
                ts.len(),
            )
        &&& self.route_pairs() == planned_routes(ts, ts.len())
    }
}

/// Positions of the tensors that shard `s` stores.
fn positions_of(owners: &Vec<Option<u16>>, ts: Ghost<Seq<TensorInfo>>, s: u16) -> (r: Vec<usize>)
    requires
        owners@.len() == ts@.len(),
        forall|i: int| 0 <= i < ts@.len() ==> #[trigger] owners@[i] == owner(ts@, i),
    ensures
        r@ == owned_by(ts@, s, ts@.len()),
{
    let mut v: Vec<usize> = Vec::new();
    let mut i: usize = 0;
    while i < owners.len()
        invariant
            owners@.len() == ts@.len(),
            forall|k: int| 0 <= k < ts@.len() ==> #[trigger] owners@[k] == owner(ts@, k),
            i <= owners@.len(),
            v@ == owned_by(ts@, s, i as nat),
        decreases owners@.len() - i,
    {
        if owners[i] == Some(s) {
            v.push(i);
        }
        i = i + 1;
    }
    v
}

/// Decides where each tensor goes: resident tensors to shard 0, the others
/// to streaming shards filled in order; refuses a layout in which a
/// streaming shard would hold more than `SHARD_MAX_BYTES`.
pub fn plan_shards(ts: &Vec<TensorInfo>) -> (r: Result<ShardPlan, PackError>)
    requires
        size_prefix(ts@, ts@.len()) <= u64::MAX,
    ensures
        r is Ok <==> plan_fits(ts@),
        r matches Ok(p) ==> p.describes(ts@),
        r matches Err(e) ==> e == PackError::LayoutTooLarge,
{
    let owners = match tensor_owners(ts) {
        Some(o) => o,
        None => {
            return Err(PackError::LayoutTooLarge);
        },
    };
    let mut shard_tensors: Vec<Vec<usize>> = Vec::new();
    let mut s: u16 = 0;
    while s <= NUM_SHARDS
        invariant
            owners@.len() == ts@.len(),
            forall|i: int| 0 <= i < ts@.len() ==> #[trigger] owners@[i] == owner(ts@, i),
            s <= NUM_SHARDS + 1,
            shard_tensors@.len() == s,
            forall|k: int| 0 <= k < s ==> #[trigger] shard_tensors@[k]@ == owned_by(
                ts@,
                k as u16,
                ts@.len(),
            ),
        decreases NUM_SHARDS + 1 - s,
    {
        let v = positions_of(&owners, Ghost(ts@), s);
        shard_tensors.push(v);
        s = s + 1;
    }
    let mut routes: Vec<(String, u16)> = Vec::new();
    let mut i: usize = 0;
    while i < ts.len()
        invariant
            owners@.len() == ts@.len(),
            forall|k: int| 0 <= k < ts@.len() ==> #[trigger] owners@[k] == owner(ts@, k),
            i <= ts@.len(),
            routes@.map_values(|r: (String, u16)| (r.0@, r.1)) == planned_routes(ts@, i as nat),
        decreases ts@.len() - i,
    {
        if !earlier_same_name(ts, i) {
            match owners[i] {
                Some(o) => {
                    routes.push((ts[i].name.clone(), o));
                },
                None => {},
            }
        }
        proof {
            assert(first_occurrence(ts@, i as int) ==> owner(ts@, i as int) is Some);
        }
        assert(routes@.map_values(|r: (String, u16)| (r.0@, r.1)) =~= planned_routes(
            ts@,
            (i + 1) as nat,
        ));
        i = i + 1;
    }
    Ok(ShardPlan { shard_tensors, routes })
}

/// A route list maps the name of each pair to its shard when no name repeats.
proof fn lemma_route_map_distinct(p: Seq<RoutePair>)
    requires
        names_distinct(p),
    ensures
        forall|m: int| 0 <= m < p.len() ==> #[trigger] route_map(p).contains_key(p[m].0)
            && route_map(p)[p[m].0] == p[m].1,
        forall|x: Seq<char>| #[trigger] route_map(p).contains_key(x) ==> exists|m: int|
            0 <= m < p.len() && p[m].0 == x,
    decreases p.len(),
{
    if p.len() > 0 {
        let q = p.drop_last();
        assert(names_distinct(q));
        lemma_route_map_distinct(q);
        assert forall|m: int| 0 <= m < p.len() implies #[trigger] route_map(p).contains_key(p[m].0)
            && route_map(p)[p[m].0] == p[m].1 by {
            if m < p.len() - 1 {
                assert(p[m] == q[m]);
                assert(p[m].0 != p[p.len() - 1].0);
                assert(route_map(q).contains_key(q[m].0));
            }
        }
        assert forall|x: Seq<char>| #[trigger] route_map(p).contains_key(x) implies exists|m: int|
            0 <= m < p.len() && p[m].0 == x by {
            if x != p.last().0 {
                assert(route_map(q).contains_key(x));
                let m = choose|m: int| 0 <= m < q.len() && q[m].0 == x;
                assert(p[m].0 == x);
            } else {
                assert(p[p.len() - 1].0 == x);
            }
        }
    }
}

/// Every route among the first `k` tensors' comes from a first occurrence.
proof fn lemma_planned_routes_source(ts: Seq<TensorInfo>, k: nat, m: int) -> (i: int)
    requires
        k <= ts.len(),
        0 <= m < planned_routes(ts, k).len(),
    ensures
        0 <= i < k,
        first_occurrence(ts, i),
        planned_routes(ts, k)[m] == (ts[i].name@, owner(ts, i)->Some_0),
    decreases k,
{
    let km = (k - 1) as nat;
    let prev = planned_routes(ts, km);
    if m < prev.len() {
        assert(planned_routes(ts, k)[m] == prev[m]);
        lemma_planned_routes_source(ts, km, m)
    } else {
        k - 1
    }
}

/// No name is routed twice.
proof fn lemma_planned_routes_distinct(ts: Seq<TensorInfo>, k: nat)
    requires
        k <= ts.len(),
    ensures
        names_distinct(planned_routes(ts, k)),
    decreases k,
{
    if k > 0 {
        let km = (k - 1) as nat;
        lemma_planned_routes_distinct(ts, km);
        let prev = planned_routes(ts, km);
        let cur = planned_routes(ts, k);
        if first_occurrence(ts, k - 1) {
            assert forall|a: int, b: int| 0 <= a < b < cur.len() implies #[trigger] cur[a].0
                != #[trigger] cur[b].0 by {
                assert(cur[a] == prev[a]);
                if b == cur.len() - 1 {
                    let i = lemma_planned_routes_source(ts, km, a);
                    assert(ts[i].name@ != ts[k - 1].name@);
                } else {
                    assert(cur[b] == prev[b]);
                }
            }
        } else {
            assert(cur =~= prev);
        }
    }
}

/// Every first occurrence among the first `k` tensors is routed.
proof fn lemma_planned_routes_complete(ts: Seq<TensorInfo>, k: nat, i: int)
    requires
        k <= ts.len(),
        0 <= i < k,
        first_occurrence(ts, i),
    ensures
        planned_routes(ts, k).contains((ts[i].name@, owner(ts, i)->Some_0)),
    decreases k,
{
    let km = (k - 1) as nat;
    let prev = planned_routes(ts, km);
    let cur = planned_routes(ts, k);
    if i == k - 1 {
        assert(cur[cur.len() - 1] == (ts[i].name@, owner(ts, i)->Some_0));
    } else {
        lemma_planned_routes_complete(ts, km, i);
        let m = choose|m: int| 0 <= m < prev.len() && prev[m] == (ts[i].name@, owner(ts, i)->Some_0);
        assert(cur[m] == prev[m]);
    }
}

/// The earliest tensor with the same name as tensor `i`.
proof fn lemma_first_of_name(ts: Seq<TensorInfo>, i: int) -> (f: int)
    requires
        0 <= i < ts.len(),
    ensures
        0 <= f <= i,
        first_occurrence(ts, f),
        ts[f].name@ == ts[i].name@,
    decreases i,
{
    if first_occurrence(ts, i) {
        i
    } else {
        let j = choose|j: int| 0 <= j < i && #[trigger] ts[j].name@ == ts[i].name@;
        lemma_first_of_name(ts, j)
    }
}

/// Every tensor name gets exactly one route, and the route of a name leads
/// to the shard that stores the first tensor of that name.
pub proof fn lemma_plan_routes(ts: Seq<TensorInfo>)
    ensures
        names_distinct(planned_routes(ts, ts.len())),
        forall|i: int|
            0 <= i < ts.len() ==> #[trigger] route_map(planned_routes(ts, ts.len())).contains_key(
                ts[i].name@,
            ),
        forall|i: int|
            0 <= i < ts.len() && #[trigger] first_occurrence(ts, i) ==> route_map(
                planned_routes(ts, ts.len()),
            )[ts[i].name@] == owner(ts, i)->Some_0,
        forall|x: Seq<char>| #[trigger]
            route_map(planned_routes(ts, ts.len())).contains_key(x) ==> exists|i: int|
                0 <= i < ts.len() && ts[i].name@ == x,
{
    let p = planned_routes(ts, ts.len());
    lemma_planned_routes_distinct(ts, ts.len());
    lemma_route_map_distinct(p);
    assert forall|i: int| 0 <= i < ts.len() implies #[trigger] route_map(p).contains_key(
        ts[i].name@,
    ) by {
        let f = lemma_first_of_name(ts, i);
        lemma_planned_routes_complete(ts, ts.len(), f);
        assert(p.contains((ts[f].name@, owner(ts, f)->Some_0)));
        let m = choose|m: int| 0 <= m < p.len() && p[m] == (ts[f].name@, owner(ts, f)->Some_0);
        assert(p[m].0 == ts[i].name@);
    }
    assert forall|i: int| 0 <= i < ts.len() && #[trigger] first_occurrence(ts, i) implies route_map(
        p,
    )[ts[i].name@] == owner(ts, i)->Some_0 by {
        lemma_planned_routes_complete(ts, ts.len(), i);
        let m = choose|m: int| 0 <= m < p.len() && p[m] == (ts[i].name@, owner(ts, i)->Some_0);
        assert(p[m].0 == ts[i].name@);
        assert(route_map(p).contains_key(p[m].0));
    }
    assert forall|x: Seq<char>| #[trigger] route_map(p).contains_key(x) implies exists|i: int|
        0 <= i < ts.len() && ts[i].name@ == x by {
        let m = choose|m: int| 0 <= m < p.len() && p[m].0 == x;
        let i = lemma_planned_routes_source(ts, ts.len(), m);
        assert(ts[i].name@ == x);
    }
}

proof fn lemma_owner_step(ts: Seq<TensorInfo>, k: nat, s: u16)
    requires
        0 < k <= ts.len(),
    ensures
        owned_by(ts, s, k).len() == owned_by(ts, s, (k - 1) as nat).len() + if owner(ts, k - 1)
            == Some(s) {
            1int
        } else {
            0int
        },
        shard_load(ts, s, k) == shard_load(ts, s, (k - 1) as nat) + if owner(ts, k - 1) == Some(
            s,
        ) {
            ts[k - 1].size_bytes as int
        } else {
            0int
        },
{
}

/// Fill invariant of the streaming shards after the first `k` tensors.
proof fn lemma_capacity_inv(ts: Seq<TensorInfo>, k: nat)
    requires
        k <= ts.len(),
    ensures
        1 <= stream_state(ts, k).0 <= NUM_SHARDS,
        shard_load(ts, stream_state(ts, k).0 as u16, k) == stream_state(ts, k).1,
        stream_state(ts, k).1 <= SHARD_MAX_BYTES || owned_by(
            ts,
            stream_state(ts, k).0 as u16,
            k,
        ).len() <= 1 || stream_state(ts, k).0 == NUM_SHARDS,
        forall|s: u16|
            s > stream_state(ts, k).0 ==> #[trigger] owned_by(ts, s, k).len() == 0
                && shard_load(ts, s, k) == 0,
        forall|s: u16|
            1 <= s < stream_state(ts, k).0 ==> #[trigger] shard_load(ts, s, k) <= SHARD_MAX_BYTES
                || owned_by(ts, s, k).len() == 1,
        forall|s: u16| #[trigger] owned_by(ts, s, k).len() == 0 ==> shard_load(ts, s, k) == 0,
    decreases k,
{
    if k > 0 {
        let km = (k - 1) as nat;
        lemma_capacity_inv(ts, km);
        let prev = stream_state(ts, km);
        let cur = stream_state(ts, k);
        let i = k - 1;
        assert forall|s: u16| true implies #[trigger] owned_by(ts, s, k).len() == owned_by(
            ts,
            s,
            km,
        ).len() + (if owner(ts, i) == Some(s) {
            1int
        } else {
            0int
        }) && shard_load(ts, s, k) == shard_load(ts, s, km) + (if owner(ts, i) == Some(s) {
            ts[i].size_bytes as int
        } else {
            0int
        }) by {
            lemma_owner_step(ts, k, s);
        }
        if !streaming(ts, i) {
            assert(cur == prev);
            assert(owner(ts, i) == Some(0u16) || owner(ts, i) is None);
            assert(owned_by(ts, cur.0 as u16, k).len() == owned_by(ts, cur.0 as u16, km).len());
        } else {
            assert(owner(ts, i) == Some(cur.0 as u16));
            assert(cur.0 as u16 == cur.0);
            assert forall|s: u16| s > cur.0 implies #[trigger] owned_by(ts, s, k).len() == 0
                && shard_load(ts, s, k) == 0 by {
                assert(owner(ts, i) != Some(s));
                assert(owned_by(ts, s, km).len() == 0);
            }
            let sz = ts[i].size_bytes as int;
            if prev.1 + sz > SHARD_MAX_BYTES && prev.0 < NUM_SHARDS {
                assert(cur == (prev.0 + 1, sz));
                assert(owned_by(ts, cur.0 as u16, km).len() == 0);
                assert(owned_by(ts, cur.0 as u16, k).len() == 1);
                assert(owned_by(ts, prev.0 as u16, km).len() == owned_by(ts, prev.0 as u16, k).len());
                assert(shard_load(ts, prev.0 as u16, k) == shard_load(ts, prev.0 as u16, km));
            } else {
                assert(cur == (prev.0, prev.1 + sz));
                assert(owned_by(ts, cur.0 as u16, k).len() == owned_by(ts, cur.0 as u16, km).len()
                    + 1);
            }
        }
    }
}

/// Loads of the streaming shards after the first `k` tensors of a layout
/// that fits so far.
proof fn lemma_capacity_fits(ts: Seq<TensorInfo>, k: nat)
    requires
        k <= ts.len(),
        fits_upto(ts, k),
    ensures
        stream_state(ts, k).1 <= SHARD_MAX_BYTES,
        forall|s: u16| 1 <= s ==> #[trigger] shard_load(ts, s, k) <= SHARD_MAX_BYTES,
    decreases k,
{
    if k > 0 {
        let km = (k - 1) as nat;
        let i = k - 1;
        assert(fits_upto(ts, km));
        lemma_capacity_fits(ts, km);
        lemma_capacity_inv(ts, k);
        let cur = stream_state(ts, k);
        if streaming(ts, i) {
            assert(stream_state(ts, (i + 1) as nat).1 <= SHARD_MAX_BYTES);
        }
        assert forall|s: u16| 1 <= s implies #[trigger] shard_load(ts, s, k) <= SHARD_MAX_BYTES by {
            lemma_owner_step(ts, k, s);
            if owner(ts, i) == Some(s) {
                assert(streaming(ts, i));
                assert(cur.0 as u16 == s);
            }
        }
    }
}

/// A layout that `plan_shards` accepts keeps every streaming shard at or
/// under `SHARD_MAX_BYTES`.
pub proof fn lemma_shard_capacity(ts: Seq<TensorInfo>, s: u16)
    requires
        plan_fits(ts),
        1 <= s <= NUM_SHARDS,
    ensures
        shard_load(ts, s, ts.len()) <= SHARD_MAX_BYTES,
{
    lemma_capacity_fits(ts, ts.len());
}

/// Next multiple of 64 at or after `x`.
pub open spec fn align64(x: nat) -> nat {
    x + pad_len(x, 64)
}

/// Payload sizes of the listed tensors.
pub open spec fn listed_sizes(ts: Seq<TensorInfo>, owned: Seq<usize>) -> Seq<nat> {
    owned.map_values(|i: usize| ts[i as int].size_bytes as nat)
}

/// Where the bytes before payload `j` of a streaming shard end.
pub open spec fn payload_end(sizes: Seq<nat>, j: nat) -> nat
    decreases j,
{
    if j == 0 {
        8 + 144 * sizes.len()
    } else {
        align64(payload_end(sizes, (j - 1) as nat)) + sizes[j - 1]
    }
}

/// File offset of payload `j` of a streaming shard.
pub open spec fn payload_offset(sizes: Seq<nat>, j: nat) -> nat {
    align64(payload_end(sizes, j))
}

/// Length of a streaming shard file with payloads of these sizes.
pub open spec fn stream_len(sizes: Seq<nat>) -> nat {
    if sizes.len() == 0 {
        align64(8)
    } else {
        payload_end(sizes, sizes.len())
    }
}

/// Position `p` of a streaming shard lies in payload `j`.
pub open spec fn in_payload(sizes: Seq<nat>, j: int, p: int) -> bool {
    payload_offset(sizes, j as nat) <= p < payload_stop(sizes, j)
}

/// The bytes of `b` where payload `j` belongs.
pub open spec fn payload_in(b: Seq<u8>, sizes: Seq<nat>, j: int) -> Seq<u8> {
    b.subrange(payload_offset(sizes, j as nat) as int, payload_stop(sizes, j))
}

/// Where payload `j` of a streaming shard ends.
pub open spec fn payload_stop(sizes: Seq<nat>, j: int) -> int {
    payload_offset(sizes, j as nat) as int + sizes[j] as int
}

/// `e` is the index record of tensor `t` (manifest position `i`) whose
/// payload sits at file offset `off`.
pub open spec fn stream_entry(e: TensorIndexEntry, t: TensorInfo, off: nat, i: usize) -> bool {
    &&& TensorIndexEntry { reserved: 0, ..e }.spec_from_tensor(
        TensorInfo { offset: off as u64, ..t },
        0,
    )
    &&& e.reserved == i as u32
}

/// Index record bytes of tensor `t` (manifest position `i`) whose payload
/// sits at file offset `off` of a streaming shard.
pub open spec fn stream_record(t: TensorInfo, off: nat, i: usize) -> Seq<u8> {
    le64_seq(seq![0u64, t.spec_name_len() as u64, off as u64, t.size_bytes]) + le32_seq(
        seq![t.shape@.len() as u32, t.dtype.spec_code(), t.quantization_type.spec_code(), i as u32],
    ) + le64_seq(
        shape8(t.shape@) + seq![t.spec_scales_offset(), t.spec_scales_size(), 0u64, 0u64],
    )
}

proof fn lemma_stream_record(e: TensorIndexEntry, t: TensorInfo, off: nat, i: usize)
    requires
        stream_entry(e, t, off, i),
    ensures
        e.spec_encode() == stream_record(t, off, i),
{
    let z = TensorIndexEntry { reserved: 0, ..e };
    let t2 = TensorInfo { offset: off as u64, ..t };
    assert(z.shape@ == e.shape@);
    assert(t2.spec_name_len() == t.spec_name_len());
    assert(t2.spec_scales_offset() == t.spec_scales_offset());
    assert(t2.spec_scales_size() == t.spec_scales_size());
    assert(e.head() =~= seq![0u64, t.spec_name_len() as u64, off as u64, t.size_bytes]);
    assert(e.mid() =~= seq![
        t.shape@.len() as u32,
        t.dtype.spec_code(),
        t.quantization_type.spec_code(),
        i as u32,
    ]);
    assert(e.shape@ =~= shape8(t.shape@));
    assert(e.tail() =~= shape8(t.shape@) + seq![
        t.spec_scales_offset(),
        t.spec_scales_size(),
        0u64,
        0u64,
    ]);
}

proof fn lemma_align64(x: nat)
    ensures
        x <= align64(x) < x + 64,
        align64(x) % 64 == 0,
        align64(align64(x)) == align64(x),
{
    let r = x % 64;
    vstd::arithmetic::div_mod::lemma_fundamental_div_mod(x as int, 64);
    if r == 0 {
        assert(pad_len(x, 64) == 0);
    } else {
        assert(pad_len(x, 64) == 64 - r);
        assert(align64(x) == 64 * (x / 64) + 64);
        vstd::arithmetic::div_mod::lemma_mod_multiples_basic(x as int / 64 + 1, 64);
        assert(align64(x) == (x as int / 64 + 1) * 64);
    }
    let y = align64(x);
    assert(y % 64 == 0);
    assert(pad_len(y, 64) == 0);
}

proof fn lemma_payload_end_mono(sizes: Seq<nat>, i: nat, j: nat)
    requires
        i <= j <= sizes.len(),
    ensures
        payload_end(sizes, i) <= payload_end(sizes, j),
        i < j ==> payload_offset(sizes, i) + sizes[i as int] <= payload_end(sizes, j),
    decreases j - i,
{
    if i < j {
        lemma_payload_end_mono(sizes, i, (j - 1) as nat);
        lemma_align64(payload_end(sizes, (j - 1) as nat));
    }
}

/// Appends zeros up to `off`, then `data`.
fn append_at(b: &mut Vec<u8>, off: usize, data: &[u8])
    requires
        old(b)@.len() <= off,
    ensures
        final(b)@ == old(b)@ + zeros((off - old(b)@.len()) as nat) + data@,
{
    let gap = off - b.len();
    push_zeros(b, gap);
    push_bytes(b, data);
}

proof fn lemma_payload_step(
    old_b: Seq<u8>,
    b: Seq<u8>,
    datas: Seq<Seq<u8>>,
    sizes: Seq<nat>,
    j: int,
    hdr: Seq<u8>,
)
    requires
        0 <= j < sizes.len(),
        datas.len() == sizes.len(),
        datas[j].len() == sizes[j],
        hdr.len() <= old_b.len() <= payload_offset(sizes, j as nat),
        b == old_b + zeros((payload_offset(sizes, j as nat) - old_b.len()) as nat) + datas[j],
        old_b.subrange(0, hdr.len() as int) == hdr,
        forall|k: int| 0 <= k < j ==> #[trigger] payload_stop(sizes, k) <= old_b.len(),
        forall|k: int| 0 <= k < j ==> #[trigger] payload_in(old_b, sizes, k) == datas[k],
        forall|p: int|
            hdr.len() <= p < old_b.len() && (forall|k: int|
                0 <= k < j ==> !#[trigger] in_payload(sizes, k, p)) ==> #[trigger] old_b[p] == 0,
    ensures
        b.subrange(0, hdr.len() as int) == hdr,
        forall|k: int| 0 <= k < j + 1 ==> #[trigger] payload_stop(sizes, k) <= b.len(),
        forall|k: int| 0 <= k < j + 1 ==> #[trigger] payload_in(b, sizes, k) == datas[k],
        forall|p: int|
            hdr.len() <= p < b.len() && (forall|k: int|
                0 <= k < j + 1 ==> !#[trigger] in_payload(sizes, k, p)) ==> #[trigger] b[p] == 0,
{
    let off = payload_offset(sizes, j as nat);
    assert(j > 0 ==> payload_in(old_b, sizes, 0) == datas[0]);
    assert(j > 0 ==> payload_offset(sizes, 0) + sizes[0] <= old_b.len());
    let mid = old_b + zeros((off - old_b.len()) as nat);
    assert(b.subrange(0, hdr.len() as int) =~= old_b.subrange(0, hdr.len() as int));
    assert(b.len() == off + sizes[j]);
    assert forall|k: int| 0 <= k < j + 1 implies payload_stop(sizes, k) <= b.len() by {
        if k < j {
            assert(payload_stop(sizes, k) <= old_b.len());
        }
    }
    assert forall|k: int| 0 <= k < j + 1 implies #[trigger] payload_in(b, sizes, k) == datas[k] by {
        if k < j {
            assert(payload_stop(sizes, k) <= old_b.len() && payload_in(old_b, sizes, k) == datas[k]);
            assert(payload_in(b, sizes, k) =~= payload_in(old_b, sizes, k));
        } else {
            assert(payload_in(b, sizes, j) =~= datas[j]);
        }
    }
    assert forall|p: int|
        hdr.len() <= p < b.len() && (forall|k: int|
            0 <= k < j + 1 ==> !#[trigger] in_payload(sizes, k, p)) implies #[trigger] b[p] == 0 by {
        if p < old_b.len() {
            assert(b[p] == old_b[p]);
        } else if p < mid.len() {
            assert(b[p] == mid[p]);
        } else {
            assert(in_payload(sizes, j, p));
        }
    }
}

/// Payload offsets of a streaming shard.
fn payload_offsets(ts: &Vec<TensorInfo>, owned: &Vec<usize>) -> (r: Vec<usize>)
    requires
        forall|k: int| 0 <= k < owned@.len() ==> #[trigger] owned@[k] < ts@.len(),
        stream_len(listed_sizes(ts@, owned@)) <= usize::MAX,
    ensures
        r@.len() == owned@.len(),
        forall|k: int|
            0 <= k < owned@.len() ==> #[trigger] r@[k] == payload_offset(
                listed_sizes(ts@, owned@),
                k as nat,
            ),
{
    let ghost sizes = listed_sizes(ts@, owned@);
    let n = owned.len();
    proof {
        lemma_payload_end_mono(sizes, 0, n as nat);
        lemma_align64(8);
        if n > 0 {
            lemma_align64(payload_end(sizes, 0));
        }
    }
    let mut offs: Vec<usize> = Vec::new();
    let mut end: usize = 8 + 144 * n;
    let mut j: usize = 0;
    while j < n
        invariant
            n == sizes.len(),
            sizes == listed_sizes(ts@, owned@),
            n == owned@.len(),
            j <= n,
            stream_len(sizes) <= usize::MAX,
            forall|k: int| 0 <= k < owned@.len() ==> #[trigger] owned@[k] < ts@.len(),
            end == payload_end(sizes, j as nat),
            offs@.len() == j,
            forall|k: int| 0 <= k < j ==> #[trigger] offs@[k] == payload_offset(sizes, k as nat),
        decreases n - j,
    {
        proof {
            lemma_payload_end_mono(sizes, j as nat, n as nat);
            lemma_payload_end_mono(sizes, (j + 1) as nat, n as nat);
            lemma_align64(end as nat);
        }
        let off = end + (64 - end % 64) % 64;
        offs.push(off);
        end = off + ts[owned[j]].size_bytes as usize;
        j = j + 1;
    }
    offs
}

/// Count and index records of a streaming shard, padded to 64 bytes.
fn stream_header(ts: &Vec<TensorInfo>, owned: &Vec<usize>, offs: &Vec<usize>) -> (r: Vec<u8>)
    requires
        forall|k: int| 0 <= k < owned@.len() ==> #[trigger] owned@[k] < ts@.len(),
        offs@.len() == owned@.len(),
        forall|k: int| 0 <= k < owned@.len() ==> #[trigger] offs@[k] == payload_offset(
            listed_sizes(ts@, owned@),
            k as nat,
        ),
        stream_len(listed_sizes(ts@, owned@)) <= usize::MAX,
    ensures
        r@.len() == align64(8 + 144 * owned@.len()),
        r@.subrange(0, 8) == le64(owned@.len() as u64),
        forall|k: int|
            0 <= k < owned@.len() ==> #[trigger] r@.subrange(8 + 144 * k, 8 + 144 * k + 144)
                == stream_record(
                ts@[owned@[k] as int],
                payload_offset(listed_sizes(ts@, owned@), k as nat),
                owned@[k],
            ),
        forall|p: int| 8 + 144 * owned@.len() <= p < r@.len() ==> #[trigger] r@[p] == 0,
{
    let ghost sizes = listed_sizes(ts@, owned@);
    let n = owned.len();
    proof {
        lemma_payload_end_mono(sizes, 0, n as nat);
        lemma_align64(8);
        lemma_align64((8 + 144 * n) as nat);
        lemma_le_lengths();
    }
    let mut b: Vec<u8> = Vec::new();
    push_u64(&mut b, n as u64);
    let ghost mut es: Seq<TensorIndexEntry> = Seq::empty();
    let mut j: usize = 0;
    while j < n
        invariant
            n == sizes.len(),
            sizes == listed_sizes(ts@, owned@),
            n == owned@.len(),
            forall|k: int| 0 <= k < owned@.len() ==> #[trigger] owned@[k] < ts@.len(),
            offs@.len() == n,
            forall|k: int| 0 <= k < n ==> #[trigger] offs@[k] == payload_offset(sizes, k as nat),
            j <= n,
            b@.len() == 8 + 144 * j,
            b@.subrange(0, 8) == le64(n as u64),
            es.len() == j,
            forall|k: int|
                0 <= k < j ==> stream_entry(
                    #[trigger] es[k],
                    ts@[owned@[k] as int],
                    payload_offset(sizes, k as nat),
                    owned@[k],
                ) && b@.subrange(8 + 144 * k, 8 + 144 * k + 144) == es[k].spec_encode(),
        decreases n - j,
    {
        let i = owned[j];
        let t = &ts[i];
        let mut e = TensorIndexEntry::from_tensor(t, 0);
        e.offset = offs[j] as u64;
        e.size_bytes = t.size_bytes;
        e.reserved = i as u32;
        let rec = e.to_bytes();
        let ghost old_b = b@;
        push_bytes(&mut b, rec.as_slice());
        proof {
            es = es.push(e);
            lemma_stream_record(e, *t, payload_offset(sizes, j as nat), i);
            assert(b@.subrange(0, 8) =~= old_b.subrange(0, 8));
            assert forall|k: int| 0 <= k < j + 1 implies stream_entry(
                #[trigger] es[k],
                ts@[owned@[k] as int],
                payload_offset(sizes, k as nat),
                owned@[k],
            ) && b@.subrange(8 + 144 * k, 8 + 144 * k + 144) == es[k].spec_encode() by {
                if k < j {
                    assert(b@.subrange(8 + 144 * k, 8 + 144 * k + 144) =~= old_b.subrange(
                        8 + 144 * k,
                        8 + 144 * k + 144,
                    ));
                } else {
                    assert(b@.subrange(8 + 144 * k, 8 + 144 * k + 144) =~= rec@);
                    assert(TensorIndexEntry { reserved: 0, ..e }.shape@ == e.shape@);
                }
            }
        }
        j = j + 1;
    }
    let ghost hdr = b@;
    let hpad = (64 - b.len() % 64) % 64;
    push_zeros(&mut b, hpad);
    proof {
        assert(b@.subrange(0, 8) =~= hdr.subrange(0, 8));
        assert forall|k: int|
            0 <= k < owned@.len() implies #[trigger] b@.subrange(8 + 144 * k, 8 + 144 * k + 144)
            == stream_record(ts@[owned@[k] as int], payload_offset(sizes, k as nat), owned@[k]) by {
            assert(b@.subrange(8 + 144 * k, 8 + 144 * k + 144) =~= hdr.subrange(
                8 + 144 * k,
                8 + 144 * k + 144,
            ));
            lemma_stream_record(es[k], ts@[owned@[k] as int], payload_offset(sizes, k as nat), owned@[k]);
        }
    }
    b
}

/// Appends each payload at its offset, zero-filling the gaps.
fn append_payloads(b: &mut Vec<u8>, sizes: Ghost<Seq<nat>>, offs: &Vec<usize>, datas: &Vec<&[u8]>)
    requires
        offs@.len() == sizes@.len(),
        datas@.len() == sizes@.len(),
        forall|k: int| 0 <= k < sizes@.len() ==> #[trigger] offs@[k] == payload_offset(sizes@, k as nat),
        forall|k: int| 0 <= k < sizes@.len() ==> #[trigger] datas@[k]@.len() == sizes@[k],
        stream_len(sizes@) <= usize::MAX,
        old(b)@.len() == align64(8 + 144 * sizes@.len()),
    ensures
        final(b)@.len() == stream_len(sizes@),
        final(b)@.len() >= old(b)@.len(),
        final(b)@.subrange(0, old(b)@.len() as int) == old(b)@,
        forall|k: int| 0 <= k < sizes@.len() ==> #[trigger] payload_in(final(b)@, sizes@, k) == datas@[k]@,
        forall|p: int|
            old(b)@.len() <= p < final(b)@.len() && (forall|k: int|
                0 <= k < sizes@.len() ==> !#[trigger] in_payload(sizes@, k, p)) ==> #[trigger] final(b)@[p]
                == 0,
{
    let ghost sizes = sizes@;
    let ghost dv = datas@.map_values(|d: &[u8]| d@);
    let ghost start = b@;
    let n = datas.len();
    proof {
        lemma_align64((8 + 144 * n) as nat);
        lemma_align64(8);
    }
    let mut j: usize = 0;
    while j < n
        invariant
            n == sizes.len(),
            offs@.len() == n,
            datas@.len() == n,
            dv == datas@.map_values(|d: &[u8]| d@),
            forall|k: int| 0 <= k < n ==> #[trigger] offs@[k] == payload_offset(sizes, k as nat),
            forall|k: int| 0 <= k < n ==> #[trigger] datas@[k]@.len() == sizes[k],
            stream_len(sizes) <= usize::MAX,
            start.len() == align64((8 + 144 * n) as nat),
            j <= n,
            j == 0 ==> b@.len() == start.len(),
            j > 0 ==> b@.len() == payload_end(sizes, j as nat),
            b@.subrange(0, start.len() as int) == start,
            forall|k: int| 0 <= k < j ==> #[trigger] payload_stop(sizes, k) <= b@.len(),
            forall|k: int| 0 <= k < j ==> #[trigger] payload_in(b@, sizes, k) == dv[k],
            forall|p: int|
                start.len() <= p < b@.len() && (forall|k: int|
                    0 <= k < j ==> !#[trigger] in_payload(sizes, k, p)) ==> #[trigger] b@[p] == 0,
        decreases n - j,
    {
        let ghost old_b = b@;
        proof {
            lemma_payload_end_mono(sizes, 0, j as nat);
            lemma_payload_end_mono(sizes, (j + 1) as nat, n as nat);
            lemma_align64(payload_end(sizes, j as nat));
            assert(dv[j as int] == datas@[j as int]@);
        }
        append_at(b, offs[j], datas[j]);
        proof {
            lemma_payload_step(old_b, b@, dv, sizes, j as int, start);
        }
        j = j + 1;
    }
    proof {
        assert forall|k: int| 0 <= k < n implies #[trigger] payload_in(b@, sizes, k) == datas@[k]@ by {
            assert(dv[k] == datas@[k]@);
        }
        if n > 0 {
            lemma_payload_end_mono(sizes, 0, n as nat);
        }
    }
}

proof fn lemma_stream_final(hdr: Seq<u8>, b: Seq<u8>, ts: Seq<TensorInfo>, owned: Seq<usize>)
    requires
        hdr.len() == align64(8 + 144 * owned.len()),
        hdr.subrange(0, 8) == le64(owned.len() as u64),
        forall|k: int|
            0 <= k < owned.len() ==> #[trigger] hdr.subrange(8 + 144 * k, 8 + 144 * k + 144)
                == stream_record(
                ts[owned[k] as int],
                payload_offset(listed_sizes(ts, owned), k as nat),
                owned[k],
            ),
        forall|p: int| 8 + 144 * owned.len() <= p < hdr.len() ==> #[trigger] hdr[p] == 0,
        b.len() >= hdr.len(),
        b.subrange(0, hdr.len() as int) == hdr,
        forall|p: int|
            hdr.len() <= p < b.len() && (forall|k: int|
                0 <= k < owned.len() ==> !#[trigger] in_payload(listed_sizes(ts, owned), k, p))
                ==> #[trigger] b[p] == 0,
    ensures
        b.subrange(0, 8) == le64(owned.len() as u64),
        forall|k: int|
            0 <= k < owned.len() ==> #[trigger] b.subrange(8 + 144 * k, 8 + 144 * k + 144)
                == stream_record(
                ts[owned[k] as int],
                payload_offset(listed_sizes(ts, owned), k as nat),
                owned[k],
            ),
        forall|p: int|
            8 + 144 * owned.len() <= p < b.len() && (forall|j: int|
                0 <= j < owned.len() ==> !#[trigger] in_payload(listed_sizes(ts, owned), j, p))
                ==> #[trigger] b[p] == 0,
{
    let n = owned.len();
    lemma_align64(8 + 144 * n);
    assert forall|k: int| 0 <= k < n implies #[trigger] b.subrange(8 + 144 * k, 8 + 144 * k + 144)
        == stream_record(
        ts[owned[k] as int],
        payload_offset(listed_sizes(ts, owned), k as nat),
        owned[k],
    ) by {
        assert(b.subrange(8 + 144 * k, 8 + 144 * k + 144) =~= hdr.subrange(
            8 + 144 * k,
            8 + 144 * k + 144,
        ));
    }
    assert(b.subrange(0, 8) =~= hdr.subrange(0, 8));
    assert forall|p: int|
        8 + 144 * n <= p < b.len() && (forall|j: int|
            0 <= j < n ==> !#[trigger] in_payload(listed_sizes(ts, owned), j, p)) implies #[trigger] b[p]
        == 0 by {
        if p < hdr.len() {
            assert(b[p] == b.subrange(0, hdr.len() as int)[p]);
        }
    }
}

impl BrainPack {
    /// The payloads of the listed tensors, or `OutOfBounds` for the first
    /// one outside the weights.
    fn collect_payloads<'a>(&'a self, owned: &Vec<usize>) -> (r: Result<Vec<&'a [u8]>, PackError>)
        requires
            forall|j: int|
                0 <= j < owned@.len() ==> #[trigger] owned@[j] < self.manifest.tensors@.len()
                    && first_occurrence(self.manifest.tensors@, owned@[j] as int),
            forall|j: int|
                0 <= j < owned@.len() ==> #[trigger] self.manifest.tensors@[owned@[j] as int].offset
                    + self.manifest.tensors@[owned@[j] as int].size_bytes <= usize::MAX,
        ensures
            r is Err <==> exists|j: int|
                0 <= j < owned@.len() && !self.in_bounds(
                    #[trigger] self.manifest.tensors@[owned@[j] as int],
                ),
            r is Err ==> r == Err::<Vec<&'a [u8]>, PackError>(PackError::OutOfBounds),
            r matches Ok(datas) ==> datas@.len() == owned@.len() && forall|k: int|
                0 <= k < owned@.len() ==> self.in_bounds(
                    #[trigger] self.manifest.tensors@[owned@[k] as int],
                ) && datas@[k]@ == self.weights@.subrange(
                    self.manifest.tensors@[owned@[k] as int].offset as int,
                    self.manifest.tensors@[owned@[k] as int].offset
                        + self.manifest.tensors@[owned@[k] as int].size_bytes,
                ),
    {
        let ghost ts = self.manifest.tensors@;
        let n = owned.len();
        let mut datas: Vec<&[u8]> = Vec::new();
        let mut j: usize = 0;
        while j < n
            invariant
                ts == self.manifest.tensors@,
                n == owned@.len(),
                j <= n,
                forall|k: int|
                    0 <= k < owned@.len() ==> #[trigger] owned@[k] < ts.len() && first_occurrence(
                        ts,
                        owned@[k] as int,
                    ),
                forall|k: int|
                    0 <= k < owned@.len() ==> #[trigger] ts[owned@[k] as int].offset
                        + ts[owned@[k] as int].size_bytes <= usize::MAX,
                datas@.len() == j,
                forall|k: int|
                    0 <= k < j ==> self.in_bounds(#[trigger] ts[owned@[k] as int]) && datas@[k]@
                        == self.weights@.subrange(
                        ts[owned@[k] as int].offset as int,
                        ts[owned@[k] as int].offset + ts[owned@[k] as int].size_bytes,
                    ),
            decreases n - j,
        {
            let i = owned[j];
            let t = &self.manifest.tensors[i];
            proof {
                assert(first_occurrence(ts, i as int));
                crate::brain_pack::pack::lemma_first_named(ts, t.name@, i as int);
            }
            match self.get_tensor(t.name.as_str()) {
                Ok(v) => {
                    datas.push(v.data);
                },
                Err(e) => {
                    return Err(e);
                },
            }
            j = j + 1;
        }
        Ok(datas)
    }
}

impl BrainPack {
    /// The bytes of a streaming shard that stores the listed tensors: the
    /// tensor count, one index record per tensor (payload offset, and the
    /// manifest position in `reserved`), zero padding, then each payload at
    /// the next multiple of 64. Fails when a payload lies outside the weights.
    pub fn encode_stream_shard(&self, owned: &Vec<usize>) -> (r: Result<Vec<u8>, PackError>)
        requires
            forall|j: int|
                0 <= j < owned@.len() ==> #[trigger] owned@[j] < self.manifest.tensors@.len()
                    && first_occurrence(self.manifest.tensors@, owned@[j] as int),
            forall|j: int|
                0 <= j < owned@.len() ==> #[trigger] self.manifest.tensors@[owned@[j] as int].offset
                    + self.manifest.tensors@[owned@[j] as int].size_bytes <= usize::MAX,
            stream_len(listed_sizes(self.manifest.tensors@, owned@)) <= usize::MAX,
        ensures
            r is Err <==> exists|j: int|
                0 <= j < owned@.len() && !self.in_bounds(
                    #[trigger] self.manifest.tensors@[owned@[j] as int],
                ),
            r is Err ==> r == Err::<Vec<u8>, PackError>(PackError::OutOfBounds),
            r matches Ok(b) ==> {
                let ts = self.manifest.tensors@;
                let sizes = listed_sizes(ts, owned@);
                let n = owned@.len();
                &&& b@.len() == stream_len(sizes)
                &&& b@.subrange(0, 8) == le64(n as u64)
                &&& forall|j: int|
                    0 <= j < n ==> #[trigger] b@.subrange(8 + 144 * j, 8 + 144 * j + 144)
                        == stream_record(ts[owned@[j] as int], payload_offset(sizes, j as nat), owned@[j])
                &&& forall|j: int|
                    0 <= j < n ==> #[trigger] payload_in(b@, sizes, j) == self.weights@.subrange(
                        ts[owned@[j] as int].offset as int,
                        ts[owned@[j] as int].offset + ts[owned@[j] as int].size_bytes,
                    )
                &&& forall|p: int|
                    8 + 144 * n <= p < b@.len() && (forall|j: int|
                        0 <= j < n ==> !#[trigger] in_payload(sizes, j, p)) ==> #[trigger] b@[p]
                        == 0
            },
    {
        let ghost ts = self.manifest.tensors@;
        let ghost sizes = listed_sizes(ts, owned@);
        let n = owned.len();
        let datas = match self.collect_payloads(owned) {
            Ok(d) => d,
            Err(e) => {
                return Err(e);
            },
        };
        let offs = payload_offsets(&self.manifest.tensors, owned);
        let mut b = stream_header(&self.manifest.tensors, owned, &offs);
        let ghost hdr = b@;
        proof {
            assert forall|k: int| 0 <= k < n implies #[trigger] datas@[k]@.len() == sizes[k] by {
                assert(self.in_bounds(ts[owned@[k] as int]));
            }
        }
        append_payloads(&mut b, Ghost(sizes), &offs, &datas);
        proof {
            lemma_stream_final(hdr, b@, ts, owned@);
        }
        Ok(b)
    }
}

/// Which shard holds a tensor, and where its payload starts.
#[derive(Debug, Clone, Copy)]
pub struct TensorLocation {
    pub shard_id: u16,
    /// Byte offset inside the shard file (for shard 0: inside the weights).
    pub file_offset: u64,
    pub size_bytes: u64,
}

/// Tensor count field of a streaming shard.
pub open spec fn shard_count(b: Seq<u8>) -> nat {
    de64(b.subrange(0, 8)) as nat
}

/// Payload offset field of index record `j`.
pub open spec fn record_offset(b: Seq<u8>, j: int) -> u64 {
    de64(b.subrange(8 + 144 * j + 16, 8 + 144 * j + 24))
}

/// Payload size field of index record `j`.
pub open spec fn record_size(b: Seq<u8>, j: int) -> u64 {
    de64(b.subrange(8 + 144 * j + 24, 8 + 144 * j + 32))
}

/// Manifest position field of index record `j`.
pub open spec fn record_owner(b: Seq<u8>, j: int) -> u32 {
    de32(b.subrange(8 + 144 * j + 44, 8 + 144 * j + 48))
}

/// Index records that can be read: as many as the count says, up to the
/// first one cut off by the end of the bytes.
pub open spec fn readable_records(b: Seq<u8>) -> nat {
    if b.len() < 8 {
        0
    } else {
        let avail = ((b.len() - 8) / 144) as nat;
        if shard_count(b) < avail {
            shard_count(b)
        } else {
            avail
        }
    }
}

/// Record `j` names the tensor called `name` in `ts`.
pub open spec fn record_names(b: Seq<u8>, ts: Seq<TensorInfo>, name: Seq<char>, j: int) -> bool {
    record_owner(b, j) < ts.len() && ts[record_owner(b, j) as int].name@ == name
}

/// The names of a list of tensors, in order.
pub open spec fn tensor_names(ts: Seq<TensorInfo>) -> Seq<Seq<char>> {
    ts.map_values(|t: TensorInfo| t.name@)
}

/// The views of a list of strings.
pub open spec fn string_views(v: Seq<String>) -> Seq<Seq<char>> {
    v.map_values(|s: String| s@)
}

/// Record `j` names the tensor called `name` among the manifest `names`.
pub open spec fn record_named(b: Seq<u8>, names: Seq<Seq<char>>, name: Seq<char>, j: int) -> bool {
    record_owner(b, j) < names.len() && names[record_owner(b, j) as int] == name
}

/// `r` is what looking up `name` in the bytes `b` of streaming shard
/// `shard_id` gives, with `names` the manifest's tensor names: the first
/// readable index record whose manifest position names it, or nothing.
pub open spec fn stream_lookup(b: Seq<u8>, names: Seq<Seq<char>>, name: Seq<char>, shard_id: u16, r: Option<
    TensorLocation,
>) -> bool {
    match r {
        Some(loc) => exists|j: int|
            0 <= j < readable_records(b) && #[trigger] record_named(b, names, name, j) && (forall|k: int|
                0 <= k < j ==> !#[trigger] record_named(b, names, name, k)) && loc.shard_id == shard_id
                && loc.file_offset == record_offset(b, j) && loc.size_bytes == record_size(b, j),
        None => forall|j: int| 0 <= j < readable_records(b) ==> !#[trigger] record_named(b, names, name, j),
    }
}

/// Finds the tensor called `name` in the bytes of streaming shard
/// `shard_id`, with `names` the manifest's tensor names in order: the first
/// readable index record whose manifest position names it.
pub fn locate_in_stream_shard(b: &[u8], names: &Vec<String>, name: &str, shard_id: u16) -> (r:
    Option<TensorLocation>)
    ensures
        stream_lookup(b@, string_views(names@), name@, shard_id, r),
{
    let ghost nv = string_views(names@);
    let blen = b.len();
    if blen < 8 {
        return None;
    }
    let count = read_u64(b, 0);
    let avail = (b.len() - 8) / 144;
    let limit: usize = if count < avail as u64 {
        count as usize
    } else {
        avail
    };
    assert(limit == readable_records(b@));
    let mut j: usize = 0;
    while j < limit
        invariant
            limit == readable_records(b@),
            limit <= avail,
            avail == (b@.len() - 8) / 144,
            b@.len() >= 8,
            b@.len() == blen,
            j <= limit,
            nv == string_views(names@),
            forall|k: int| 0 <= k < j ==> !#[trigger] record_named(b@, nv, name@, k),
        decreases limit - j,
    {
        assert(8 + 144 * j + 144 <= b@.len()) by (nonlinear_arith)
            requires
                j < avail,
                avail == (b@.len() - 8) / 144,
                b@.len() >= 8,
        ;
        let base = 8 + 144 * j;
        let owner = read_u32(b, base + 44);
        if (owner as usize) < names.len() {
            if str_eq(names[owner as usize].as_str(), name) {
                let off = read_u64(b, base + 16);
                let size = read_u64(b, base + 24);
                assert(record_named(b@, nv, name@, j as int));
                return Some(TensorLocation { shard_id, file_offset: off, size_bytes: size });
            }
        }
        assert(!record_named(b@, nv, name@, j as int));
        j = j + 1;
    }
    None
}

proof fn lemma_record_fields(t: TensorInfo, off: nat, i: usize)
    requires
        off <= u64::MAX,
    ensures
        stream_record(t, off, i).len() == 144,
        de64(stream_record(t, off, i).subrange(16, 24)) == off,
        de64(stream_record(t, off, i).subrange(24, 32)) == t.size_bytes,
        de32(stream_record(t, off, i).subrange(44, 48)) == i as u32,
{
    let h = seq![0u64, t.spec_name_len() as u64, off as u64, t.size_bytes];
    let m = seq![t.shape@.len() as u32, t.dtype.spec_code(), t.quantization_type.spec_code(), i as u32];
    let tl = shape8(t.shape@) + seq![t.spec_scales_offset(), t.spec_scales_size(), 0u64, 0u64];
    lemma_le64_seq(h);
    lemma_le32_seq(m);
    lemma_le64_seq(tl);
    lemma_le_roundtrip();
    let r = stream_record(t, off, i);
    assert(r.subrange(16, 24) =~= le64_seq(h).subrange(16, 24));
    assert(le64_seq(h).subrange(8 * 2int, 8 * 2int + 8) == le64(h[2]));
    assert(r.subrange(24, 32) =~= le64_seq(h).subrange(24, 32));
    assert(le64_seq(h).subrange(8 * 3int, 8 * 3int + 8) == le64(h[3]));
    assert(r.subrange(44, 48) =~= le32_seq(m).subrange(12, 16));
    assert(le32_seq(m).subrange(4 * 3int, 4 * 3int + 4) == le32(m[3]));
}

/// What a streaming shard stores is found there again: in its bytes every
/// listed tensor's index record is readable, is the first one that names
/// it, and holds the offset where its payload was placed and its size.
pub proof fn lemma_stream_shard_locate(ts: Seq<TensorInfo>, owned: Seq<usize>, b: Seq<u8>, k: int)
    requires
        ts.len() <= u32::MAX,
        forall|j: int|
            0 <= j < owned.len() ==> #[trigger] owned[j] < ts.len() && first_occurrence(
                ts,
                owned[j] as int,
            ),
        forall|a: int, c: int| 0 <= a < c < owned.len() ==> #[trigger] owned[a] != #[trigger] owned[c],
        0 <= k < owned.len(),
        b.len() == stream_len(listed_sizes(ts, owned)),
        stream_len(listed_sizes(ts, owned)) <= usize::MAX,
        b.subrange(0, 8) == le64(owned.len() as u64),
        forall|j: int|
            0 <= j < owned.len() ==> #[trigger] b.subrange(8 + 144 * j, 8 + 144 * j + 144)
                == stream_record(
                ts[owned[j] as int],
                payload_offset(listed_sizes(ts, owned), j as nat),
                owned[j],
            ),
    ensures
        readable_records(b) == owned.len(),
        record_names(b, ts, ts[owned[k] as int].name@, k),
        forall|j: int| 0 <= j < k ==> !#[trigger] record_names(b, ts, ts[owned[k] as int].name@, j),
        record_offset(b, k) == payload_offset(listed_sizes(ts, owned), k as nat),
        record_size(b, k) == ts[owned[k] as int].size_bytes,
{
    let sizes = listed_sizes(ts, owned);
    let n = owned.len();
    lemma_le_roundtrip();
    lemma_align64(8 + 144 * n);
    lemma_align64(8);
    lemma_payload_end_mono(sizes, 0, n);
    if n > 0 {
        lemma_payload_end_mono(sizes, 0, n);
    }
    assert(b.len() >= 8 + 144 * n);
    assert(((b.len() - 8) / 144) as nat >= n) by (nonlinear_arith)
        requires
            b.len() >= 8 + 144 * n,
    ;
    assert(shard_count(b) == n);
    assert forall|j: int| 0 <= j < n implies #[trigger] record_owner(b, j) == owned[j]
        && record_offset(b, j) == payload_offset(sizes, j as nat) && record_size(b, j)
        == ts[owned[j] as int].size_bytes by {
        let rec = b.subrange(8 + 144 * j, 8 + 144 * j + 144);
        lemma_payload_end_mono(sizes, (j + 1) as nat, n);
        lemma_payload_end_mono(sizes, j as nat, (j + 1) as nat);
        assert(payload_offset(sizes, j as nat) <= stream_len(sizes));
        lemma_record_fields(ts[owned[j] as int], payload_offset(sizes, j as nat), owned[j]);
        assert(b.subrange(8 + 144 * j + 16, 8 + 144 * j + 24) =~= rec.subrange(16, 24));
        assert(b.subrange(8 + 144 * j + 24, 8 + 144 * j + 32) =~= rec.subrange(24, 32));
        assert(b.subrange(8 + 144 * j + 44, 8 + 144 * j + 48) =~= rec.subrange(44, 48));
    }
    assert(record_owner(b, k) == owned[k]);
    assert forall|j: int| 0 <= j < k implies !#[trigger] record_names(
        b,
        ts,
        ts[owned[k] as int].name@,
        j,
    ) by {
        assert(record_owner(b, j) == owned[j]);
        assert(owned[j] != owned[k]);
        let a = owned[j] as int;
        let c = owned[k] as int;
        if a < c {
            assert(first_occurrence(ts, c));
        } else {
            assert(first_occurrence(ts, a));
        }
    }
}

/// The payload of the first tensor of `p` called `name`.
pub open spec fn named_payload(p: BrainPack, name: Seq<char>) -> Seq<u8> {
    let t = p.manifest.tensors@[first_named(p.manifest.tensors@, name)->Some_0];
    p.weights@.subrange(t.offset as int, t.offset + t.size_bytes)
}

/// The quantization tables that tensor `t` of `p` carries into a new pack.
pub open spec fn scales_of(p: BrainPack, t: TensorInfo) -> Seq<u8> {
    match t.quantization {
        Some(q) => if q.scales_size > 0 {
            p.weights@.subrange(q.scales_offset as int, q.scales_offset + q.scales_size)
        } else {
            Seq::empty()
        },
        None => Seq::empty(),
    }
}

/// How tensor `t` of `p` is placed after weights `w` in a new pack.
pub open spec fn step_tensor(p: BrainPack, w: Seq<u8>, t: TensorInfo) -> TensorInfo {
    let data = named_payload(p, t.name@);
    let w1 = pad_to(w, t.dtype.spec_alignment());
    if t.quantization is Some {
        placed_tensor(
            t,
            w1.len() as u64,
            data.len() as u64,
            pad_to(w1, 64).len() as u64,
            Some(scales_of(p, t).len() as u64),
        )
    } else {
        placed_tensor(t, w1.len() as u64, data.len() as u64, w1.len() as u64, None)
    }
}

/// The weights after tensor `t` of `p` is appended to weights `w`.
pub open spec fn step_weights(p: BrainPack, w: Seq<u8>, t: TensorInfo) -> Seq<u8> {
    let data = named_payload(p, t.name@);
    let w1 = pad_to(w, t.dtype.spec_alignment());
    if t.quantization is Some {
        pad_to(w1, 64) + scales_of(p, t) + data
    } else {
        w1 + data
    }
}

/// Tensors and weights of the base fragment after its first `k` tensors.
pub open spec fn base_fold(p: BrainPack, resident: Seq<usize>, k: nat) -> (
    Seq<TensorInfo>,
    Seq<u8>,
)
    decreases k,
{
    if k == 0 {
        (Seq::empty(), Seq::empty())
    } else {
        let prev = base_fold(p, resident, (k - 1) as nat);
        let t = p.manifest.tensors@[resident[k - 1] as int];
        (prev.0.push(step_tensor(p, prev.1, t)), step_weights(p, prev.1, t))
    }
}

proof fn lemma_placed_same(c: TensorInfo, t: TensorInfo, a: u64, b: u64, d: u64, e: Option<u64>)
    requires
        c.same_as(t),
    ensures
        placed_tensor(c, a, b, d, e).same_as(placed_tensor(t, a, b, d, e)),
{
}

proof fn lemma_base_fold_len(p: BrainPack, resident: Seq<usize>, j: nat)
    ensures
        base_fold(p, resident, j).0.len() == j,
    decreases j,
{
    if j > 0 {
        lemma_base_fold_len(p, resident, (j - 1) as nat);
    }
}

proof fn lemma_base_fold_step(
    p: BrainPack,
    resident: Seq<usize>,
    j: nat,
    old_ts: Seq<TensorInfo>,
    new_ts: Seq<TensorInfo>,
)
    requires
        j < resident.len(),
        old_ts.len() == j,
        base_fold(p, resident, j).0.len() == j,
        forall|k: int| 0 <= k < j ==> #[trigger] old_ts[k].same_as(base_fold(p, resident, j).0[k]),
        new_ts.len() == j + 1,
        forall|k: int| 0 <= k < j ==> #[trigger] new_ts[k] == old_ts[k],
        new_ts.last().same_as(
            step_tensor(p, base_fold(p, resident, j).1, p.manifest.tensors@[resident[j as int] as int]),
        ),
    ensures
        base_fold(p, resident, j + 1).0.len() == j + 1,
        forall|k: int| 0 <= k < j + 1 ==> #[trigger] new_ts[k].same_as(base_fold(p, resident, j + 1).0[k]),
{
    let cur = base_fold(p, resident, j + 1);
    let prev = base_fold(p, resident, j);
    assert(cur.0 == prev.0.push(step_tensor(p, prev.1, p.manifest.tensors@[resident[j as int] as int])));
    assert forall|k: int| 0 <= k < j + 1 implies #[trigger] new_ts[k].same_as(cur.0[k]) by {
        if k < j {
            assert(new_ts[k] == old_ts[k]);
            assert(cur.0[k] == prev.0[k]);
            assert(old_ts[k].same_as(prev.0[k]));
        } else {
            assert(new_ts[k] == new_ts.last());
        }
    }
}

impl BrainPack {
    /// Appends tensor `t` to `b` with the payload of the first tensor of its
    /// name (and its quantization tables); fails when that payload lies
    /// outside the weights.
    fn add_fetched(&self, b: BrainPackBuilder, t: &TensorInfo) -> (r: Result<
        BrainPackBuilder,
        PackError,
    >)
        requires
            self.lookup_fits(t.name@),
            self.scales_fit(*t),
            first_named(self.manifest.tensors@, t.name@) is Some,
        ensures
            r is Err <==> !self.fetch_ok(t.name@),
            r is Err ==> r == Err::<BrainPackBuilder, PackError>(PackError::OutOfBounds),
            r matches Ok(nb) ==> {
                &&& nb.model_info() == b.model_info()
                &&& nb.metadata_info() == b.metadata_info()
                &&& nb.weights() == step_weights(*self, b.weights(), *t)
                &&& nb.tensors().len() == b.tensors().len() + 1
                &&& forall|k: int| 0 <= k < b.tensors().len() ==> #[trigger] nb.tensors()[k] == b.tensors()[k]
                &&& nb.tensors().last().same_as(step_tensor(*self, b.weights(), *t))
            },
    {
        proof {
            reveal(BrainPack::fetch_ok);
        }
        let view = match self.get_tensor(t.name.as_str()) {
            Ok(v) => v,
            Err(e) => {
                return Err(e);
            },
        };
        let c = t.copy_of();
        let ghost w = b.weights();
        let ghost w1 = pad_to(w, t.dtype.spec_alignment());
        let ghost data = named_payload(*self, t.name@);
        assert(view.data@ == data);
        match t.quantization {
            Some(q) => {
                let wl = self.weights.len();
                assert(q.scales_size > 0 ==> q.scales_offset + q.scales_size <= wl);
                let qdata: &[u8] = if q.scales_size > 0 {
                    vstd::slice::slice_subrange(
                        self.weights.as_slice(),
                        q.scales_offset as usize,
                        (q.scales_offset + q.scales_size) as usize,
                    )
                } else {
                    &[]
                };
                assert(qdata@ =~= scales_of(*self, *t));
                let r = b.add_tensor_with_quant(c, view.data, qdata);
                proof {
                    lemma_placed_same(
                        c,
                        *t,
                        w1.len() as u64,
                        data.len() as u64,
                        pad_to(w1, 64).len() as u64,
                        Some(scales_of(*self, *t).len() as u64),
                    );
                }
                r
            },
            None => {
                let r = b.add_tensor(c, view.data);
                proof {
                    lemma_placed_same(c, *t, w1.len() as u64, data.len() as u64, w1.len() as u64, None);
                }
                r
            },
        }
    }

    /// Tensor `t`'s quantization tables, when it has any, lie inside the weights.
    pub open spec fn scales_fit(self, t: TensorInfo) -> bool {
        match t.quantization {
            Some(q) => q.scales_size > 0 ==> q.scales_offset + q.scales_size <= self.weights@.len(),
            None => true,
        }
    }

    /// The first tensor called `name` lies inside the weights.
    #[verifier::opaque]
    pub open spec fn fetch_ok(self, name: Seq<char>) -> bool {
        self.in_bounds(self.manifest.tensors@[first_named(self.manifest.tensors@, name)->Some_0])
    }

    /// Whether every listed tensor can be fetched: the first tensor of its
    /// name lies inside the weights.
    pub open spec fn fetchable(self, listed: Seq<usize>) -> bool {
        forall|j: int|
            0 <= j < listed.len() ==> self.fetch_ok(
                #[trigger] self.manifest.tensors@[listed[j] as int].name@,
            )
    }

    /// The base fragment: a pack with this pack's model and metadata that
    /// holds the listed tensors (with their quantization tables), in order.
    #[verifier::rlimit(100)]
    #[verifier::spinoff_prover]
    pub fn base_fragment(&self, resident: &Vec<usize>) -> (r: Result<BrainPack, PackError>)
        requires
            forall|j: int|
                0 <= j < resident@.len() ==> #[trigger] resident@[j] < self.manifest.tensors@.len(),
            forall|j: int|
                0 <= j < resident@.len() ==> self.lookup_fits(
                    #[trigger] self.manifest.tensors@[resident@[j] as int].name@,
                ),
            forall|j: int|
                0 <= j < resident@.len() ==> self.scales_fit(
                    #[trigger] self.manifest.tensors@[resident@[j] as int],
                ),
        ensures
            r is Err <==> !self.fetchable(resident@),
            r is Err ==> r == Err::<BrainPack, PackError>(PackError::OutOfBounds),
            r matches Ok(p) ==> {
                let f = base_fold(*self, resident@, resident@.len());
                &&& p.manifest.version == BRAIN_VERSION
                &&& p.manifest.format@ == "brain"@
                &&& p.manifest.model == self.manifest.model
                &&& p.manifest.tensors@.len() == f.0.len()
                &&& forall|j: int|
                    0 <= j < f.0.len() ==> #[trigger] p.manifest.tensors@[j].same_as(f.0[j])
                &&& p.weights@ == f.1
                &&& utf8(p.manifest.metadata.checksum@) == checksum_text(f.1)
                &&& p.manifest.metadata.created_epoch == self.manifest.metadata.created_epoch
                &&& p.manifest.metadata.created_by == self.manifest.metadata.created_by
                &&& p.manifest.metadata.license == self.manifest.metadata.license
                &&& p.manifest.metadata.description == self.manifest.metadata.description
            },
    {
        let ghost ts = self.manifest.tensors@;
        let mut b = BrainPackBuilder::new().model(self.manifest.model.copy_of()).metadata(
            self.manifest.metadata.copy_of(),
        );
        let n = resident.len();
        let mut j: usize = 0;
        while j < n
            invariant
                ts == self.manifest.tensors@,
                n == resident@.len(),
                j <= n,
                forall|k: int| 0 <= k < n ==> #[trigger] resident@[k] < ts.len(),
                forall|k: int| 0 <= k < n ==> self.lookup_fits(#[trigger] ts[resident@[k] as int].name@),
                forall|k: int| 0 <= k < n ==> self.scales_fit(#[trigger] ts[resident@[k] as int]),
                forall|k: int| 0 <= k < j ==> self.fetch_ok(#[trigger] ts[resident@[k] as int].name@),
                b.model_info() == Some(self.manifest.model),
                b.metadata_info() == Some(self.manifest.metadata),
                b.tensors().len() == j,
                forall|k: int|
                    0 <= k < j ==> #[trigger] b.tensors()[k].same_as(
                        base_fold(*self, resident@, j as nat).0[k],
                    ),
                b.weights() == base_fold(*self, resident@, j as nat).1,
            decreases n - j,
        {
            let t = &self.manifest.tensors[resident[j]];
            proof {
                assert(ts[resident@[j as int] as int].name@ == t.name@);
                assert(first_named(ts, t.name@) is Some);
            }
            let ghost old_b = b;
            b = match self.add_fetched(b, t) {
                Ok(nb) => nb,
                Err(e) => {
                    proof {
                        assert(!self.fetchable(resident@));
                    }
                    return Err(e);
                },
            };
            proof {
                lemma_base_fold_len(*self, resident@, j as nat);
                lemma_base_fold_step(*self, resident@, j as nat, old_b.tensors(), b.tensors());
            }
            j = j + 1;
        }
        proof {
            lemma_base_fold_len(*self, resident@, n as nat);
        }
        b.build()
    }
}

/// The resident base fragment keeps the embeddings and the attention,
/// normalisation and rotary tensors: a tensor whose lowercased name starts
/// with `embed` or `token_emb`, or contains `attention`, `attn`, `norm` or
/// `rope`, is resident, and a plan routes the first tensor of that name to
/// shard 0.
pub proof fn lemma_resident_patterns(ts: Seq<TensorInfo>, i: int)
    requires
        0 <= i < ts.len(),
        ({
            let n = ascii_lower_seq(utf8(ts[i].name@));
            ||| has_prefix(n, utf8("embed"@))
            ||| has_prefix(n, utf8("token_emb"@))
            ||| has_infix(n, utf8("attention"@))
            ||| has_infix(n, utf8("attn"@))
            ||| has_infix(n, utf8("norm"@))
            ||| has_infix(n, utf8("rope"@))
        }),
    ensures
        resident_name(ts[i].name@),
        owner(ts, i) == Some(0u16),
        route_map(planned_routes(ts, ts.len())).contains_key(ts[i].name@),
        route_map(planned_routes(ts, ts.len()))[ts[i].name@] == 0,
{
    lemma_plan_routes(ts);
    let f = lemma_first_of_name(ts, i);
    assert(route_map(planned_routes(ts, ts.len()))[ts[f].name@] == owner(ts, f)->Some_0);
}

} // verus!
