//! The shard index of a sharded container, and lookups in a sharded model.

use vstd::prelude::*;
use crate::text::str_eq;
use crate::brain_pack::format::{
    ShardDesc, TensorInfo, NUM_SHARDS, SHARD_INDEX_VERSION, SHARD_MAX_BYTES,
};
use crate::brain_pack::pack::{BrainPack, first_named, TensorView, lemma_first_named};
use crate::brain_pack::shard_index::{ShardIndex, route_map};
use crate::brain_pack::shard::{
    ShardPlan, TensorLocation, stream_lookup, locate_in_stream_shard, string_views, tensor_names,
    owned_by, owner, first_occurrence, resident_name, listed_sizes, payload_offset, payload_in,
    stream_len, stream_record, record_names, record_named, readable_records, record_offset, record_size,
    lemma_plan_routes, lemma_stream_shard_locate, planned_routes,
};
use crate::le_bytes::le64;

verus! {

/// The route names of an index, in route order. An index written for a
/// manifest without repeated names routes every tensor once, in manifest
/// order, so these are the manifest's tensor names.
pub fn route_names(index: &ShardIndex) -> (r: Vec<String>)
    ensures
        string_views(r@) == index.route_pairs().map_values(|p: (Seq<char>, u16)| p.0),
{
    let mut out: Vec<String> = Vec::new();
    let mut i: usize = 0;
    while i < index.routes.len()
        invariant
            i <= index.routes@.len(),
            out@.len() == i,
            string_views(out@) == index.route_pairs().subrange(0, i as int).map_values(
                |p: (Seq<char>, u16)| p.0,
            ),
        decreases index.routes@.len() - i,
    {
        let name = index.routes[i].0.clone();
        assert(name@ == index.routes@[i as int].0@);
        assert(index.route_pairs()[i as int].0 == index.routes@[i as int].0@);
        let ghost before = out@;
        out.push(name);
        assert(out@ == before.push(name));
        let ghost want = index.route_pairs().subrange(0, i + 1).map_values(|p: (Seq<char>, u16)| p.0);
        let ghost had = index.route_pairs().subrange(0, i as int).map_values(|p: (Seq<char>, u16)| p.0);
        assert forall|k: int| 0 <= k < i + 1 implies #[trigger] string_views(out@)[k] == want[k] by {
            if k < i {
                assert(string_views(before)[k] == had[k]);
                assert(out@[k] == before[k]);
            }
        }
        assert(string_views(out@) =~= want);
        i = i + 1;
    }
    assert(index.route_pairs().subrange(0, i as int) =~= index.route_pairs());
    out
}

/// The shard record of shard `s` that holds the tensors at `owned`.
pub open spec fn shard_record(d: ShardDesc, s: u16, byte_length: u64, owned: Seq<usize>) -> bool {
    &&& d.shard_id == s
    &&& d.version == SHARD_INDEX_VERSION
    &&& d.byte_length == byte_length
    &&& d.tensor_count == owned.len() as u64
    &&& d.first_tensor == (if s == 0 || owned.len() == 0 {
        0u64
    } else {
        owned[0] as u64
    })
    &&& d.reserved@ == seq![0u64, 0u64, 0u64, 0u64]
}

/// The shard index of a plan: the base fragment is `base_len` bytes long and
/// streaming shard `s` is `stream_lens[s - 1]` bytes long.
pub fn assemble_shard_index(plan: ShardPlan, base_len: u64, stream_lens: &Vec<u64>) -> (r:
    ShardIndex)
    requires
        plan.shard_tensors@.len() == NUM_SHARDS + 1,
        stream_lens@.len() == NUM_SHARDS,
    ensures
        r.version == SHARD_INDEX_VERSION,
        r.num_shards == NUM_SHARDS,
        r.base_header_size == base_len,
        r.per_shard_max == SHARD_MAX_BYTES,
        r.shards@.len() == NUM_SHARDS + 1,
        shard_record(r.shards@[0], 0, base_len, plan.shard_tensors@[0]@),
        forall|s: int|
            1 <= s <= NUM_SHARDS ==> shard_record(
                #[trigger] r.shards@[s],
                s as u16,
                stream_lens@[s - 1],
                plan.shard_tensors@[s]@,
            ),
        r.route_pairs() == plan.route_pairs(),
{
    let mut shards: Vec<ShardDesc> = Vec::new();
    let base = &plan.shard_tensors[0];
    let d0 = ShardDesc {
        shard_id: 0,
        version: SHARD_INDEX_VERSION,
        byte_length: base_len,
        tensor_count: base.len() as u64,
        first_tensor: 0,
        reserved: [0u64; 4],
    };
    assert(d0.reserved@ =~= seq![0u64, 0u64, 0u64, 0u64]);
    shards.push(d0);
    let mut s: u16 = 1;
    while s <= NUM_SHARDS
        invariant
            plan.shard_tensors@.len() == NUM_SHARDS + 1,
            stream_lens@.len() == NUM_SHARDS,
            1 <= s <= NUM_SHARDS + 1,
            shards@.len() == s,
            shard_record(shards@[0], 0, base_len, plan.shard_tensors@[0]@),
            forall|k: int|
                1 <= k < s ==> shard_record(
                    #[trigger] shards@[k],
                    k as u16,
                    stream_lens@[k - 1],
                    plan.shard_tensors@[k]@,
                ),
        decreases NUM_SHARDS + 1 - s,
    {
        let owned = &plan.shard_tensors[s as usize];
        let first: u64 = if owned.len() == 0 {
            0
        } else {
            owned[0] as u64
        };
        let d = ShardDesc {
            shard_id: s,
            version: SHARD_INDEX_VERSION,
            byte_length: stream_lens[(s - 1) as usize],
            tensor_count: owned.len() as u64,
            first_tensor: first,
            reserved: [0u64; 4],
        };
        assert(d.reserved@ =~= seq![0u64, 0u64, 0u64, 0u64]);
        shards.push(d);
        s = s + 1;
    }
    ShardIndex {
        version: SHARD_INDEX_VERSION,
        num_shards: NUM_SHARDS,
        base_header_size: base_len,
        per_shard_max: SHARD_MAX_BYTES,
        shards,
        routes: plan.routes,
    }
}

/// A sharded model: the shard index, the loaded base fragment, the file
/// paths of all shards in shard order and the manifest's tensor names.
pub struct ShardedModel {
    pub index: ShardIndex,
    pub base: BrainPack,
    pub shard_paths: Vec<String>,
    /// Names of all tensors of the model's manifest, in manifest order: the
    /// index records of the streaming shards refer to tensors by their
    /// position in this list.
    pub tensor_names: Vec<String>,
}

impl ShardedModel {
    /// The shard that the index routes `name` to, if any (for a name listed
    /// twice, its later route).
    pub fn route_of(&self, name: &str) -> (r: Option<u16>)
        ensures
            match r {
                Some(s) => self.index.route_table().contains_key(name@)
                    && self.index.route_table()[name@] == s,
                None => !self.index.route_table().contains_key(name@),
            },
    {
        let routes = &self.index.routes;
        let ghost p = self.index.route_pairs();
        let mut q: usize = routes.len();
        while q > 0
            invariant
                routes == &self.index.routes,
                p == self.index.route_pairs(),
                q <= routes@.len(),
                forall|m: int| q <= m < routes@.len() ==> #[trigger] routes@[m].0@ != name@,
            decreases q,
        {
            q = q - 1;
            if str_eq(routes[q].0.as_str(), name) {
                proof {
                    assert forall|m: int| q < m < p.len() implies #[trigger] p[m].0 != p[q as int].0 by {
                        assert(p[m].0 == routes@[m].0@);
                    }
                    lemma_route_at(p, q as int);
                }
                assert(p[q as int] == (routes@[q as int].0@, routes@[q as int].1));
                return Some(routes[q].1);
            }
        }
        proof {
            assert forall|m: int| 0 <= m < p.len() implies #[trigger] p[m].0 != name@ by {
                assert(p[m].0 == routes@[m].0@);
            }
            lemma_route_absent(p, name@);
        }
        None
    }

    /// Where a tensor that the index routes to the base fragment lives: the
    /// first base tensor of that name, by its offset in the base weights.
    pub fn locate_resident(&self, name: &str) -> (r: Option<TensorLocation>)
        ensures
            match first_named(self.base.manifest.tensors@, name@) {
                Some(i) => r == Some(
                    TensorLocation {
                        shard_id: 0,
                        file_offset: self.base.manifest.tensors@[i].offset,
                        size_bytes: self.base.manifest.tensors@[i].size_bytes,
                    },
                ),
                None => r is None,
            },
    {
        let ts = &self.base.manifest.tensors;
        let mut i: usize = 0;
        while i < ts.len()
            invariant
                ts == &self.base.manifest.tensors,
                i <= ts@.len(),
                forall|j: int| 0 <= j < i ==> #[trigger] ts@[j].name@ != name@,
            decreases ts@.len() - i,
        {
            if str_eq(ts[i].name.as_str(), name) {
                proof {
                    crate::brain_pack::pack::lemma_first_named(ts@, name@, i as int);
                }
                return Some(
                    TensorLocation {
                        shard_id: 0,
                        file_offset: ts[i].offset,
                        size_bytes: ts[i].size_bytes,
                    },
                );
            }
            i = i + 1;
        }
        None
    }

    /// Where a tensor lives, by the route the index gives it: in the base
    /// fragment for shard 0, else in the index records of its streaming
    /// shard, whose file (`shard_paths[shard]`) holds `shard_bytes`, each
    /// record naming its tensor by manifest position in `tensor_names`.
    /// Nothing when the name has no route or the shard has no file.
    pub fn locate(&self, tensor_name: &str, shard_bytes: &[u8]) -> (r: Option<TensorLocation>)
        ensures
            !self.index.route_table().contains_key(tensor_name@) ==> r is None,
            self.index.route_table().contains_key(tensor_name@) ==> {
                let s = self.index.route_table()[tensor_name@];
                if s == 0 {
                    match first_named(self.base.manifest.tensors@, tensor_name@) {
                        Some(i) => r == Some(
                            TensorLocation {
                                shard_id: 0,
                                file_offset: self.base.manifest.tensors@[i].offset,
                                size_bytes: self.base.manifest.tensors@[i].size_bytes,
                            },
                        ),
                        None => r is None,
                    }
                } else if s >= self.shard_paths@.len() {
                    r is None
                } else {
                    stream_lookup(shard_bytes@, string_views(self.tensor_names@), tensor_name@, s, r)
                }
            },
    {
        let s = match self.route_of(tensor_name) {
            Some(s) => s,
            None => {
                return None;
            },
        };
        if s == 0 {
            return self.locate_resident(tensor_name);
        }
        if s as usize >= self.shard_paths.len() {
            return None;
        }
        locate_in_stream_shard(shard_bytes, &self.tensor_names, tensor_name, s)
    }

    /// Names of all tensors that the index routes to the base fragment, in
    /// route order.
    pub fn resident_tensor_names(&self) -> (r: Vec<&str>)
        ensures
            r@.map_values(|n: &str| n@) == resident_routes(
                self.index.route_pairs(),
                self.index.route_pairs().len(),
            ),
    {
        let routes = &self.index.routes;
        let ghost pairs = self.index.route_pairs();
        let mut out: Vec<&str> = Vec::new();
        let mut q: usize = 0;
        while q < routes.len()
            invariant
                routes == &self.index.routes,
                pairs == self.index.route_pairs(),
                q <= routes@.len(),
                out@.map_values(|n: &str| n@) == resident_routes(pairs, q as nat),
            decreases routes@.len() - q,
        {
            assert(pairs[q as int] == (routes@[q as int].0@, routes@[q as int].1));
            if routes[q].1 == 0 {
                out.push(routes[q].0.as_str());
            }
            assert(out@.map_values(|n: &str| n@) =~= resident_routes(pairs, (q + 1) as nat));
            q = q + 1;
        }
        out
    }
}

/// Names among the first `k` routes that lead to the base fragment.
pub open spec fn resident_routes(p: Seq<(Seq<char>, u16)>, k: nat) -> Seq<Seq<char>>
    decreases k,
{
    if k == 0 {
        Seq::empty()
    } else {
        resident_routes(p, (k - 1) as nat) + if p[k - 1].1 == 0 {
            seq![p[k - 1].0]
        } else {
            Seq::empty()
        }
    }
}

proof fn lemma_route_at(p: Seq<(Seq<char>, u16)>, q: int)
    requires
        0 <= q < p.len(),
        forall|m: int| q < m < p.len() ==> #[trigger] p[m].0 != p[q].0,
    ensures
        route_map(p).contains_key(p[q].0),
        route_map(p)[p[q].0] == p[q].1,
    decreases p.len(),
{
    let d = p.drop_last();
    if q < p.len() - 1 {
        assert forall|m: int| q < m < d.len() implies #[trigger] d[m].0 != d[q].0 by {
            assert(d[m] == p[m]);
            assert(p[m].0 != p[q].0);
        }
        assert(d[q] == p[q]);
        lemma_route_at(d, q);
        assert(p[p.len() - 1].0 != p[q].0);
    }
}

proof fn lemma_route_absent(p: Seq<(Seq<char>, u16)>, x: Seq<char>)
    requires
        forall|m: int| 0 <= m < p.len() ==> #[trigger] p[m].0 != x,
    ensures
        !route_map(p).contains_key(x),
    decreases p.len(),
{
    if p.len() > 0 {
        let d = p.drop_last();
        assert forall|m: int| 0 <= m < d.len() implies #[trigger] d[m].0 != x by {
            assert(d[m] == p[m]);
        }
        lemma_route_absent(d, x);
        assert(p[p.len() - 1].0 != x);
    }
}

/// The positions that shard `s` stores are increasing manifest positions
/// owned by `s`, and every position owned by `s` is among them.
proof fn lemma_owned_by(ts: Seq<TensorInfo>, s: u16, n: nat)
    requires
        n <= ts.len(),
        ts.len() <= usize::MAX,
    ensures
        forall|j: int|
            0 <= j < owned_by(ts, s, n).len() ==> #[trigger] owned_by(ts, s, n)[j] < n && owner(
                ts,
                owned_by(ts, s, n)[j] as int,
            ) == Some(s),
        forall|a: int, c: int|
            0 <= a < c < owned_by(ts, s, n).len() ==> #[trigger] owned_by(ts, s, n)[a]
                < #[trigger] owned_by(ts, s, n)[c],
        forall|i: int|
            0 <= i < n && #[trigger] owner(ts, i) == Some(s) ==> exists|k: int|
                0 <= k < owned_by(ts, s, n).len() && owned_by(ts, s, n)[k] == i,
    decreases n,
{
    if n > 0 {
        let m = (n - 1) as nat;
        lemma_owned_by(ts, s, m);
        let prev = owned_by(ts, s, m);
        let cur = owned_by(ts, s, n);
        if owner(ts, m as int) == Some(s) {
            assert(cur == prev.push(m as usize));
            assert(cur[prev.len() as int] == m);
        } else {
            assert(cur =~= prev);
        }
        assert forall|j: int| 0 <= j < cur.len() implies #[trigger] cur[j] < n && owner(
            ts,
            cur[j] as int,
        ) == Some(s) by {
            if j < prev.len() {
                assert(cur[j] == prev[j]);
            }
        }
        assert forall|a: int, c: int| 0 <= a < c < cur.len() implies #[trigger] cur[a]
            < #[trigger] cur[c] by {
            assert(cur[a] == prev[a]);
            if c < prev.len() {
                assert(cur[c] == prev[c]);
            }
        }
        assert forall|i: int| 0 <= i < n && #[trigger] owner(ts, i) == Some(s) implies exists|k: int|
            0 <= k < cur.len() && cur[k] == i by {
            if i < m {
                let k = choose|k: int| 0 <= k < prev.len() && prev[k] == i;
                assert(cur[k] == prev[k]);
            } else {
                assert(cur[prev.len() as int] == i);
            }
        }
    }
}

/// A streaming tensor of a planned layout is found where it was written: in
/// a model whose index holds the plan's routes and whose name list is the
/// manifest's, looking the tensor up in the bytes of its streaming shard
/// gives that shard, the offset where its payload was placed and its size,
/// and the bytes there are the tensor's bytes. The result is the position of
/// the tensor among the shard's records.
pub proof fn lemma_locate_streaming(
    m: ShardedModel,
    ts: Seq<TensorInfo>,
    weights: Seq<u8>,
    plan: ShardPlan,
    b: Seq<u8>,
    i: int,
) -> (k: int)
    requires
        plan.describes(ts),
        m.index.route_pairs() == plan.route_pairs(),
        string_views(m.tensor_names@) == tensor_names(ts),
        ts.len() <= u32::MAX,
        0 <= i < ts.len(),
        first_occurrence(ts, i),
        !resident_name(ts[i].name@),
        ({
            let s = owner(ts, i)->Some_0;
            let owned = owned_by(ts, s, ts.len());
            let sizes = listed_sizes(ts, owned);
            &&& b.len() == stream_len(sizes)
            &&& stream_len(sizes) <= usize::MAX
            &&& b.subrange(0, 8) == le64(owned.len() as u64)
            &&& forall|j: int|
                0 <= j < owned.len() ==> #[trigger] b.subrange(8 + 144 * j, 8 + 144 * j + 144)
                    == stream_record(ts[owned[j] as int], payload_offset(sizes, j as nat), owned[j])
            &&& forall|j: int|
                0 <= j < owned.len() ==> #[trigger] payload_in(b, sizes, j) == weights.subrange(
                    ts[owned[j] as int].offset as int,
                    ts[owned[j] as int].offset + ts[owned[j] as int].size_bytes,
                )
        }),
    ensures
        ({
            let s = owner(ts, i)->Some_0;
            let owned = owned_by(ts, s, ts.len());
            let sizes = listed_sizes(ts, owned);
            let loc = TensorLocation {
                shard_id: s,
                file_offset: payload_offset(sizes, k as nat) as u64,
                size_bytes: ts[i].size_bytes,
            };
            &&& 1 <= s
            &&& m.index.route_table().contains_key(ts[i].name@)
            &&& m.index.route_table()[ts[i].name@] == s
            &&& 0 <= k < owned.len() && owned[k] == i
            &&& forall|r: Option<TensorLocation>|
                #[trigger] stream_lookup(b, string_views(m.tensor_names@), ts[i].name@, s, r) ==> r
                    == Some(loc)
            &&& b.subrange(
                loc.file_offset as int,
                loc.file_offset + loc.size_bytes,
            ) == weights.subrange(ts[i].offset as int, ts[i].offset + ts[i].size_bytes)
        }),
{
    let s = owner(ts, i)->Some_0;
    let n = ts.len();
    let owned = owned_by(ts, s, n);
    let sizes = listed_sizes(ts, owned);
    let names = string_views(m.tensor_names@);
    crate::brain_pack::shard::lemma_stream_state_bounds(ts, (i + 1) as nat);
    assert(s >= 1);
    lemma_plan_routes(ts);
    assert(m.index.route_table() == route_map(plan.route_pairs()));
    lemma_owned_by(ts, s, n);
    let k = choose|k: int| 0 <= k < owned.len() && owned[k] == i;
    assert forall|j: int| 0 <= j < owned.len() implies #[trigger] owned[j] < ts.len()
        && first_occurrence(ts, owned[j] as int) by {
        assert(owner(ts, owned[j] as int) == Some(s));
    }
    assert forall|a: int, c: int| 0 <= a < c < owned.len() implies #[trigger] owned[a]
        != #[trigger] owned[c] by {
        assert(owned[a] < owned[c]);
    }
    lemma_stream_shard_locate(ts, owned, b, k);
    assert forall|j: int| true implies #[trigger] record_named(b, names, ts[i].name@, j)
        == record_names(b, ts, ts[i].name@, j) by {
        assert(names.len() == ts.len());
    }
    let loc = TensorLocation {
        shard_id: s,
        file_offset: payload_offset(sizes, k as nat) as u64,
        size_bytes: ts[i].size_bytes,
    };
    assert forall|r: Option<TensorLocation>|
        #[trigger] stream_lookup(b, names, ts[i].name@, s, r) implies r == Some(loc) by {
        assert(record_named(b, names, ts[i].name@, k));
        match r {
            Some(l) => {
                let j = choose|j: int|
                    0 <= j < readable_records(b) && #[trigger] record_named(b, names, ts[i].name@, j)
                        && (forall|q: int| 0 <= q < j ==> !#[trigger] record_named(b, names, ts[i].name@, q))
                        && l.shard_id == s && l.file_offset == record_offset(b, j) && l.size_bytes
                        == record_size(b, j);
                if j < k {
                    assert(!record_names(b, ts, ts[i].name@, j));
                } else if j > k {
                    assert(!record_named(b, names, ts[i].name@, k));
                }
            },
            None => {
                assert(!record_named(b, names, ts[i].name@, k));
            },
        }
    }
    assert(payload_in(b, sizes, k) == weights.subrange(
        ts[owned[k] as int].offset as int,
        ts[owned[k] as int].offset + ts[owned[k] as int].size_bytes,
    ));
    k
}

/// No two tensors of the list share a name.
pub open spec fn manifest_names_distinct(ts: Seq<TensorInfo>) -> bool {
    forall|i: int, j: int| 0 <= i < j < ts.len() ==> #[trigger] ts[i].name@ != #[trigger] ts[j].name@
}

/// With no repeated names, the planned routes name the tensors in manifest
/// order.
proof fn lemma_route_names_are_manifest(ts: Seq<TensorInfo>, k: nat)
    requires
        k <= ts.len(),
        manifest_names_distinct(ts),
    ensures
        planned_routes(ts, k).map_values(|p: (Seq<char>, u16)| p.0) == tensor_names(ts.subrange(0, k as int)),
    decreases k,
{
    if k > 0 {
        let km = (k - 1) as nat;
        lemma_route_names_are_manifest(ts, km);
        assert(first_occurrence(ts, k - 1));
        let a = planned_routes(ts, k).map_values(|p: (Seq<char>, u16)| p.0);
        let b = tensor_names(ts.subrange(0, k as int));
        let pa = planned_routes(ts, km).map_values(|p: (Seq<char>, u16)| p.0);
        let pb = tensor_names(ts.subrange(0, km as int));
        let pr = planned_routes(ts, k);
        let prm = planned_routes(ts, km);
        assert(pr == prm + seq![(ts[k - 1].name@, owner(ts, k - 1)->Some_0)]);
        assert(pa.len() == pb.len());
        assert(prm.len() == km);
        assert(a.len() == k);
        assert(b.len() == k);
        assert forall|j: int| 0 <= j < k implies #[trigger] a[j] == b[j] by {
            if j < km {
                assert(pr[j] == prm[j]);
                assert(a[j] == pr[j].0);
                assert(pa[j] == prm[j].0);
                assert(pa[j] == pb[j]);
                assert(b[j] == ts[j].name@);
                assert(pb[j] == ts[j].name@);
            } else {
                assert(pr[j] == (ts[k - 1].name@, owner(ts, k - 1)->Some_0));
                assert(a[j] == pr[j].0);
                assert(b[j] == ts[j].name@);
            }
        }
        assert(a =~= b);
    }
}

/// End to end: a tensor that the writer streams is found where it was
/// written. For a pack whose tensor names do not repeat, planned by
/// `plan_shards`, whose index is assembled from that plan, whose model takes
/// its name list from the index (`route_names`), and whose streaming shard
/// holds the bytes `encode_stream_shard` produced, looking the tensor up
/// gives its route, the offset and size of its payload in the shard, and
/// there the very bytes that `get_tensor` gives for it.
pub proof fn lemma_written_model_locates(m: ShardedModel, p: BrainPack, plan: ShardPlan, b: Seq<u8>, i: int)
    requires
        plan.describes(p.manifest.tensors@),
        m.index.route_pairs() == plan.route_pairs(),
        string_views(m.tensor_names@) == m.index.route_pairs().map_values(|q: (Seq<char>, u16)| q.0),
        manifest_names_distinct(p.manifest.tensors@),
        p.manifest.tensors@.len() <= u32::MAX,
        0 <= i < p.manifest.tensors@.len(),
        !resident_name(p.manifest.tensors@[i].name@),
        ({
            let ts = p.manifest.tensors@;
            let s = owner(ts, i)->Some_0;
            let owned = owned_by(ts, s, ts.len());
            let sizes = listed_sizes(ts, owned);
            &&& b.len() == stream_len(sizes)
            &&& stream_len(sizes) <= usize::MAX
            &&& b.subrange(0, 8) == le64(owned.len() as u64)
            &&& forall|j: int|
                0 <= j < owned.len() ==> #[trigger] b.subrange(8 + 144 * j, 8 + 144 * j + 144)
                    == stream_record(ts[owned[j] as int], payload_offset(sizes, j as nat), owned[j])
            &&& forall|j: int|
                0 <= j < owned.len() ==> #[trigger] payload_in(b, sizes, j) == p.weights@.subrange(
                    ts[owned[j] as int].offset as int,
                    ts[owned[j] as int].offset + ts[owned[j] as int].size_bytes,
                )
        }),
    ensures
        ({
            let ts = p.manifest.tensors@;
            let name = ts[i].name@;
            let s = m.index.route_table()[name];
            &&& m.index.route_table().contains_key(name)
            &&& s >= 1
            &&& exists|loc: TensorLocation|
                #![trigger loc.shard_id]
                loc.shard_id == s && loc.size_bytes == ts[i].size_bytes && (forall|r: Option<TensorLocation>|
                    #[trigger] stream_lookup(b, string_views(m.tensor_names@), name, s, r) ==> r == Some(loc))
                    && (forall|v: TensorView| #[trigger] p.lookup_ok(name, v) ==> b.subrange(
                    loc.file_offset as int,
                    loc.file_offset + loc.size_bytes,
                ) == v.data@)
        }),
{
    let ts = p.manifest.tensors@;
    let n = ts.len();
    assert(first_occurrence(ts, i));
    lemma_route_names_are_manifest(ts, n);
    assert(ts.subrange(0, n as int) =~= ts);
    assert(string_views(m.tensor_names@) == tensor_names(ts));
    let k = lemma_locate_streaming(m, ts, p.weights@, plan, b, i);
    let s = owner(ts, i)->Some_0;
    let owned = owned_by(ts, s, n);
    let sizes = listed_sizes(ts, owned);
    let loc = TensorLocation {
        shard_id: s,
        file_offset: payload_offset(sizes, k as nat) as u64,
        size_bytes: ts[i].size_bytes,
    };
    assert forall|j: int| 0 <= j < i implies #[trigger] ts[j].name@ != ts[i].name@ by {}
    lemma_first_named(ts, ts[i].name@, i);
    assert(loc.shard_id == s);
}

} // verus!
