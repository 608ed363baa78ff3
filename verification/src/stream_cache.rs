//! Residency policy of streaming shards: a strict LRU over mapped shards
//! that keeps the resident bytes under a cap, and the statistics reported
//! to the dashboard.

use vstd::prelude::*;
use crate::text::{utf8, all_ascii, decimal, lemma_decimal_ascii, push_decimal, push_ascii, string_from_ascii};

verus! {

/// Default cap on resident streaming bytes: 2 GiB.
pub const DEFAULT_MAX_RESIDENT_STREAMING: usize = 2147483648;

/// Counters shown on the dashboard.
#[derive(Debug, Clone, Copy)]
pub struct CacheStats {
    pub max_resident_bytes: usize,
    pub current_resident_bytes: usize,
    pub resident_shard_count: usize,
    /// Bytes read from disk over the cache's lifetime.
    pub total_bytes_pulled: u64,
    /// Shard evictions since start.
    pub evictions: u64,
    /// Requests for a shard that was already mapped.
    pub prefetch_hits: u64,
}

/// The JSON object text of a statistics snapshot.
pub open spec fn stats_json(s: CacheStats) -> Seq<u8> {
    utf8("{\"max_resident_bytes\":"@) + decimal(s.max_resident_bytes as nat) + utf8(
        ",\"current_resident_bytes\":"@,
    ) + decimal(s.current_resident_bytes as nat) + utf8(",\"resident_shard_count\":"@) + decimal(
        s.resident_shard_count as nat,
    ) + utf8(",\"total_bytes_pulled\":"@) + decimal(s.total_bytes_pulled as nat) + utf8(
        ",\"evictions\":"@,
    ) + decimal(s.evictions as nat) + utf8(",\"prefetch_hits\":"@) + decimal(
        s.prefetch_hits as nat,
    ) + utf8("}"@)
}

impl CacheStats {
    /// Counts an evicted shard of `byte_length` bytes: one eviction more, one
    /// resident shard and its bytes fewer (never below zero).
    pub fn record_eviction(&mut self, byte_length: usize)
        requires
            old(self).evictions < u64::MAX,
        ensures
            final(self).evictions == old(self).evictions + 1,
            final(self).resident_shard_count == (if old(self).resident_shard_count > 0 {
                old(self).resident_shard_count - 1
            } else {
                0
            }),
            final(self).current_resident_bytes == (if old(self).current_resident_bytes > byte_length {
                old(self).current_resident_bytes - byte_length
            } else {
                0
            }),
            final(self).max_resident_bytes == old(self).max_resident_bytes,
            final(self).total_bytes_pulled == old(self).total_bytes_pulled,
            final(self).prefetch_hits == old(self).prefetch_hits,
    {
        self.evictions = self.evictions + 1;
        self.resident_shard_count = self.resident_shard_count.saturating_sub(1);
        self.current_resident_bytes = self.current_resident_bytes.saturating_sub(byte_length);
    }

    /// Counts a newly mapped shard of `byte_length` bytes read from disk.
    pub fn record_mapping(&mut self, byte_length: usize)
        requires
            old(self).current_resident_bytes + byte_length <= usize::MAX,
            old(self).resident_shard_count < usize::MAX,
            old(self).total_bytes_pulled + byte_length <= u64::MAX,
        ensures
            final(self).current_resident_bytes == old(self).current_resident_bytes + byte_length,
            final(self).resident_shard_count == old(self).resident_shard_count + 1,
            final(self).total_bytes_pulled == old(self).total_bytes_pulled + byte_length,
            final(self).max_resident_bytes == old(self).max_resident_bytes,
            final(self).evictions == old(self).evictions,
            final(self).prefetch_hits == old(self).prefetch_hits,
    {
        self.current_resident_bytes = self.current_resident_bytes + byte_length;
        self.resident_shard_count = self.resident_shard_count + 1;
        self.total_bytes_pulled = self.total_bytes_pulled + byte_length as u64;
    }

    /// Counts `n` bytes handed to a reader.
    pub fn record_pull(&mut self, n: u64)
        requires
            old(self).total_bytes_pulled + n <= u64::MAX,
        ensures
            final(self).total_bytes_pulled == old(self).total_bytes_pulled + n,
            final(self).max_resident_bytes == old(self).max_resident_bytes,
            final(self).current_resident_bytes == old(self).current_resident_bytes,
            final(self).resident_shard_count == old(self).resident_shard_count,
            final(self).evictions == old(self).evictions,
            final(self).prefetch_hits == old(self).prefetch_hits,
    {
        self.total_bytes_pulled = self.total_bytes_pulled + n;
    }

    /// All counters zero.
    pub fn default() -> (r: CacheStats)
        ensures
            r.max_resident_bytes == 0,
            r.current_resident_bytes == 0,
            r.resident_shard_count == 0,
            r.total_bytes_pulled == 0,
            r.evictions == 0,
            r.prefetch_hits == 0,
    {
        CacheStats {
            max_resident_bytes: 0,
            current_resident_bytes: 0,
            resident_shard_count: 0,
            total_bytes_pulled: 0,
            evictions: 0,
            prefetch_hits: 0,
        }
    }

    /// The snapshot as a JSON object with one decimal field per counter.
    pub fn to_json(&self) -> (r: String)
        ensures
            utf8(r@) == stats_json(*self),
    {
        proof {
            reveal_strlit("{\"max_resident_bytes\":");
            reveal_strlit(",\"current_resident_bytes\":");
            reveal_strlit(",\"resident_shard_count\":");
            reveal_strlit(",\"total_bytes_pulled\":");
            reveal_strlit(",\"evictions\":");
            reveal_strlit(",\"prefetch_hits\":");
            reveal_strlit("}");
            lemma_decimal_ascii(self.max_resident_bytes as nat);
            lemma_decimal_ascii(self.current_resident_bytes as nat);
            lemma_decimal_ascii(self.resident_shard_count as nat);
            lemma_decimal_ascii(self.total_bytes_pulled as nat);
            lemma_decimal_ascii(self.evictions as nat);
            lemma_decimal_ascii(self.prefetch_hits as nat);
        }
        let mut v: Vec<u8> = Vec::new();
        push_ascii(&mut v, "{\"max_resident_bytes\":");
        push_decimal(&mut v, self.max_resident_bytes as u64);
        push_ascii(&mut v, ",\"current_resident_bytes\":");
        push_decimal(&mut v, self.current_resident_bytes as u64);
        push_ascii(&mut v, ",\"resident_shard_count\":");
        push_decimal(&mut v, self.resident_shard_count as u64);
        push_ascii(&mut v, ",\"total_bytes_pulled\":");
        push_decimal(&mut v, self.total_bytes_pulled);
        push_ascii(&mut v, ",\"evictions\":");
        push_decimal(&mut v, self.evictions);
        push_ascii(&mut v, ",\"prefetch_hits\":");
        push_decimal(&mut v, self.prefetch_hits);
        push_ascii(&mut v, "}");
        assert(v@ =~= stats_json(*self));
        assert(all_ascii(v@)) by {
            lemma_concat_ascii(stats_json(*self), *self);
        }
        string_from_ascii(v)
    }
}

proof fn lemma_concat_ascii(j: Seq<u8>, s: CacheStats)
    requires
        j == stats_json(s),
        all_ascii(utf8("{\"max_resident_bytes\":"@)),
        all_ascii(utf8(",\"current_resident_bytes\":"@)),
        all_ascii(utf8(",\"resident_shard_count\":"@)),
        all_ascii(utf8(",\"total_bytes_pulled\":"@)),
        all_ascii(utf8(",\"evictions\":"@)),
        all_ascii(utf8(",\"prefetch_hits\":"@)),
        all_ascii(utf8("}"@)),
        all_ascii(decimal(s.max_resident_bytes as nat)),
        all_ascii(decimal(s.current_resident_bytes as nat)),
        all_ascii(decimal(s.resident_shard_count as nat)),
        all_ascii(decimal(s.total_bytes_pulled as nat)),
        all_ascii(decimal(s.evictions as nat)),
        all_ascii(decimal(s.prefetch_hits as nat)),
    ensures
        all_ascii(j),
{
    assert forall|a: Seq<u8>, b: Seq<u8>| all_ascii(a) && all_ascii(b) implies #[trigger] all_ascii(
        a + b,
    ) by {
        assert forall|i: int| 0 <= i < (a + b).len() implies #[trigger] (a + b)[i] < 128 by {
            if i < a.len() {
                assert((a + b)[i] == a[i]);
            } else {
                assert((a + b)[i] == b[i - a.len()]);
            }
        }
    }
}

/// One mapped streaming shard.
#[derive(Debug, Clone, Copy)]
pub struct LruEntry {
    pub shard_id: u16,
    pub byte_length: usize,
    /// Clock tick of the last use.
    pub last_use: u64,
    /// Outstanding leases; a pinned shard is never evicted.
    pub pin_count: u32,
}

/// Total bytes of a list of entries.
pub open spec fn bytes_of(es: Seq<LruEntry>) -> int
    decreases es.len(),
{
    if es.len() == 0 {
        0
    } else {
        bytes_of(es.drop_last()) + es.last().byte_length
    }
}

/// Entry `v` is unpinned and used no later than any other unpinned entry.
pub open spec fn coldest_at(es: Seq<LruEntry>, v: int) -> bool {
    &&& 0 <= v < es.len()
    &&& es[v].pin_count == 0
    &&& forall|i: int| 0 <= i < es.len() && #[trigger] es[i].pin_count == 0 ==> es[v].last_use <= es[i].last_use
}

/// Evicting entry `v` of `es` is one step of making room for a shard of
/// `shard_len` bytes under `max_resident`: the shard would not fit beside the
/// listed ones, it would fit alone, and `v` is the coldest unpinned entry.
pub open spec fn eviction_step(es: Seq<LruEntry>, v: int, shard_len: usize, max_resident: usize) -> bool {
    &&& coldest_at(es, v)
    &&& bytes_of(es) + shard_len > max_resident
    &&& shard_len < max_resident
}

/// Starting from `es`, evicting the shards `ids` one after another, each by an
/// eviction step, leaves `fin`.
pub open spec fn evicted_in_order(
    es: Seq<LruEntry>,
    ids: Seq<u16>,
    fin: Seq<LruEntry>,
    shard_len: usize,
    max_resident: usize,
) -> bool
    decreases ids.len(),
{
    if ids.len() == 0 {
        fin == es
    } else {
        exists|mid: Seq<LruEntry>, v: int|
            #[trigger] eviction_step(mid, v, shard_len, max_resident) && evicted_in_order(
                es,
                ids.drop_last(),
                mid,
                shard_len,
                max_resident,
            ) && mid[v].shard_id == ids.last() && fin == mid.remove(v)
    }
}

/// Strict LRU over the mapped streaming shards.
#[derive(Debug, Clone)]
pub struct Lru {
    pub entries: Vec<LruEntry>,
    pub now: u64,
    pub total_resident: usize,
}

impl Lru {
    /// No shard is listed twice and the resident total is the sum of the
    /// listed shards.
    pub open spec fn well_formed(self) -> bool {
        &&& forall|i: int, j: int|
            0 <= i < j < self.entries@.len() ==> #[trigger] self.entries@[i].shard_id
                != #[trigger] self.entries@[j].shard_id
        &&& self.total_resident == bytes_of(self.entries@)
    }

    /// Whether every listed shard is pinned.
    pub open spec fn all_pinned(self) -> bool {
        forall|i: int| 0 <= i < self.entries@.len() ==> #[trigger] self.entries@[i].pin_count > 0
    }

    pub fn new() -> (r: Lru)
        ensures
            r.well_formed(),
            r.entries@.len() == 0,
            r.now == 0,
            r.total_resident == 0,
    {
        Lru { entries: Vec::new(), now: 0, total_resident: 0 }
    }

    /// Position of the unpinned entry used longest ago (the first such in
    /// list order), if any.
    pub fn coldest_unpinned(&self) -> (r: Option<usize>)
        ensures
            match r {
                Some(v) => v < self.entries@.len() && self.entries@[v as int].pin_count == 0
                    && forall|i: int|
                    0 <= i < self.entries@.len() && #[trigger] self.entries@[i].pin_count == 0
                        ==> self.entries@[v as int].last_use <= self.entries@[i].last_use,
                None => self.all_pinned(),
            },
    {
        let mut best: Option<usize> = None;
        let mut i: usize = 0;
        while i < self.entries.len()
            invariant
                i <= self.entries@.len(),
                match best {
                    Some(v) => v < i && self.entries@[v as int].pin_count == 0 && forall|k: int|
                        0 <= k < i && #[trigger] self.entries@[k].pin_count == 0
                            ==> self.entries@[v as int].last_use <= self.entries@[k].last_use,
                    None => forall|k: int| 0 <= k < i ==> #[trigger] self.entries@[k].pin_count > 0,
                },
            decreases self.entries@.len() - i,
        {
            let e = self.entries[i];
            if e.pin_count == 0 {
                match best {
                    Some(v) => {
                        if e.last_use < self.entries[v].last_use {
                            best = Some(i);
                        }
                    },
                    None => {
                        best = Some(i);
                    },
                }
            }
            i = i + 1;
        }
        best
    }

    /// Evicts the coldest unpinned shards while the resident bytes plus a
    /// shard of `shard_len` bytes would exceed `max_resident` (and the shard
    /// itself fits under the cap); returns the evicted shard ids in order.
    /// Among unpinned shards used at the same tick, which one goes first is
    /// left open.
    pub fn make_room(&mut self, shard_len: usize, max_resident: usize) -> (r: Vec<u16>)
        requires
            old(self).well_formed(),
        ensures
            final(self).well_formed(),
            final(self).now == old(self).now,
            evicted_in_order(old(self).entries@, r@, final(self).entries@, shard_len, max_resident),
            final(self).total_resident + shard_len <= max_resident || shard_len >= max_resident
                || final(self).all_pinned(),
            final(self).entries@.len() + r@.len() == old(self).entries@.len(),
            final(self).total_resident <= old(self).total_resident,
            forall|i: int|
                0 <= i < final(self).entries@.len() ==> old(self).entries@.contains(
                    #[trigger] final(self).entries@[i],
                ),
    {
        let mut evicted: Vec<u16> = Vec::new();
        while self.total_resident as u128 + shard_len as u128 > max_resident as u128 && shard_len
            < max_resident
            invariant
                self.well_formed(),
                self.now == old(self).now,
                evicted_in_order(old(self).entries@, evicted@, self.entries@, shard_len, max_resident),
                self.entries@.len() + evicted@.len() == old(self).entries@.len(),
                self.total_resident <= old(self).total_resident,
                forall|i: int|
                    0 <= i < self.entries@.len() ==> old(self).entries@.contains(
                        #[trigger] self.entries@[i],
                    ),
            ensures
                self.well_formed(),
                self.now == old(self).now,
                evicted_in_order(old(self).entries@, evicted@, self.entries@, shard_len, max_resident),
                self.entries@.len() + evicted@.len() == old(self).entries@.len(),
                self.total_resident <= old(self).total_resident,
                forall|i: int|
                    0 <= i < self.entries@.len() ==> old(self).entries@.contains(
                        #[trigger] self.entries@[i],
                    ),
                self.total_resident + shard_len <= max_resident || shard_len >= max_resident
                    || self.all_pinned(),
            decreases self.entries@.len(),
        {
            match self.coldest_unpinned() {
                Some(v) => {
                    let ghost before = self.entries@;
                    let victim = self.entries.remove(v);
                    proof {
                        lemma_bytes_remove(before, v as int);
                        assert forall|i: int, j: int|
                            0 <= i < j < self.entries@.len() implies #[trigger] self.entries@[i].shard_id
                            != #[trigger] self.entries@[j].shard_id by {
                            let oi = if i < v { i } else { i + 1 };
                            let oj = if j < v { j } else { j + 1 };
                            assert(self.entries@[i] == before[oi]);
                            assert(self.entries@[j] == before[oj]);
                        }
                        assert forall|i: int| 0 <= i < self.entries@.len() implies old(self).entries@.contains(
                            #[trigger] self.entries@[i],
                        ) by {
                            let oi = if i < v { i } else { i + 1 };
                            assert(self.entries@[i] == before[oi]);
                        }
                    }
                    self.total_resident = self.total_resident - victim.byte_length;
                    let ghost old_ids = evicted@;
                    evicted.push(victim.shard_id);
                    proof {
                        assert(eviction_step(before, v as int, shard_len, max_resident));
                        assert(evicted@.drop_last() =~= old_ids);
                        assert(self.entries@ =~= before.remove(v as int));
                        assert(evicted_in_order(
                            old(self).entries@,
                            evicted@,
                            self.entries@,
                            shard_len,
                            max_resident,
                        ));
                    }
                },
                None => {
                    break;
                },
            }
        }
        evicted
    }

    /// Records a newly mapped shard as used now.
    pub fn record_mapped(&mut self, shard_id: u16, shard_len: usize)
        requires
            old(self).well_formed(),
            old(self).now < u64::MAX,
            old(self).total_resident + shard_len <= usize::MAX,
            forall|i: int| 0 <= i < old(self).entries@.len() ==> #[trigger] old(self).entries@[i].shard_id
                != shard_id,
        ensures
            final(self).well_formed(),
            final(self).now == old(self).now + 1,
            final(self).entries@ == old(self).entries@.push(
                LruEntry { shard_id, byte_length: shard_len, last_use: (old(self).now + 1) as u64, pin_count: 0 },
            ),
            final(self).total_resident == old(self).total_resident + shard_len,
    {
        self.now = self.now + 1;
        let ghost before = self.entries@;
        self.entries.push(LruEntry { shard_id, byte_length: shard_len, last_use: self.now, pin_count: 0 });
        self.total_resident = self.total_resident + shard_len;
        proof {
            assert(self.entries@.drop_last() =~= before);
        }
    }

    /// Marks shard `shard_id` as used now, when it is listed.
    pub fn touch(&mut self, shard_id: u16)
        requires
            old(self).well_formed(),
            old(self).now < u64::MAX,
        ensures
            final(self).well_formed(),
            final(self).now == old(self).now + 1,
            final(self).total_resident == old(self).total_resident,
            final(self).entries@.len() == old(self).entries@.len(),
            forall|i: int|
                0 <= i < final(self).entries@.len() ==> #[trigger] final(self).entries@[i] == (if old(
                    self,
                ).entries@[i].shard_id == shard_id {
                    LruEntry { last_use: (old(self).now + 1) as u64, ..old(self).entries@[i] }
                } else {
                    old(self).entries@[i]
                }),
    {
        self.now = self.now + 1;
        let now = self.now;
        self.update_matching(shard_id, now, 0);
    }

    /// Updates the entry of `shard_id`: mode 0 sets its last use to `now`,
    /// mode 1 adds a pin, mode 2 removes a pin.
    fn update_matching(&mut self, shard_id: u16, now: u64, mode: u8)
        requires
            old(self).well_formed(),
            mode <= 2,
            mode == 1 ==> forall|i: int|
                0 <= i < old(self).entries@.len() && #[trigger] old(self).entries@[i].shard_id == shard_id
                    ==> old(self).entries@[i].pin_count < u32::MAX,
        ensures
            final(self).well_formed(),
            final(self).now == old(self).now,
            final(self).total_resident == old(self).total_resident,
            final(self).entries@.len() == old(self).entries@.len(),
            forall|i: int|
                0 <= i < final(self).entries@.len() ==> #[trigger] final(self).entries@[i] == (if old(
                    self,
                ).entries@[i].shard_id == shard_id {
                    entry_update(old(self).entries@[i], now, mode)
                } else {
                    old(self).entries@[i]
                }),
    {
        let mut i: usize = 0;
        while i < self.entries.len()
            invariant
                mode <= 2,
                mode == 1 ==> forall|k: int|
                    0 <= k < old(self).entries@.len() && #[trigger] old(self).entries@[k].shard_id
                        == shard_id ==> old(self).entries@[k].pin_count < u32::MAX,
                i <= self.entries@.len(),
                self.entries@.len() == old(self).entries@.len(),
                self.now == old(self).now,
                self.total_resident == old(self).total_resident,
                forall|k: int|
                    0 <= k < self.entries@.len() ==> #[trigger] self.entries@[k].shard_id
                        == old(self).entries@[k].shard_id && self.entries@[k].byte_length
                        == old(self).entries@[k].byte_length,
                forall|k: int|
                    0 <= k < i ==> #[trigger] self.entries@[k] == (if old(self).entries@[k].shard_id
                        == shard_id {
                        entry_update(old(self).entries@[k], now, mode)
                    } else {
                        old(self).entries@[k]
                    }),
                forall|k: int| i <= k < self.entries@.len() ==> #[trigger] self.entries@[k] == old(
                    self,
                ).entries@[k],
            decreases self.entries@.len() - i,
        {
            let e = self.entries[i];
            if e.shard_id == shard_id {
                let ne = if mode == 0 {
                    LruEntry { last_use: now, ..e }
                } else if mode == 1 {
                    LruEntry { pin_count: e.pin_count + 1, ..e }
                } else if e.pin_count > 0 {
                    LruEntry { pin_count: e.pin_count - 1, ..e }
                } else {
                    e
                };
                self.entries.set(i, ne);
            }
            i = i + 1;
        }
        proof {
            lemma_bytes_same(old(self).entries@, self.entries@);
            assert forall|a: int, b: int|
                0 <= a < b < self.entries@.len() implies #[trigger] self.entries@[a].shard_id
                != #[trigger] self.entries@[b].shard_id by {
                assert(self.entries@[a].shard_id == old(self).entries@[a].shard_id);
                assert(self.entries@[b].shard_id == old(self).entries@[b].shard_id);
            }
        }
    }

    /// Adds a lease to shard `shard_id`, when it is listed.
    pub fn pin(&mut self, shard_id: u16)
        requires
            old(self).well_formed(),
            forall|i: int|
                0 <= i < old(self).entries@.len() && #[trigger] old(self).entries@[i].shard_id == shard_id
                    ==> old(self).entries@[i].pin_count < u32::MAX,
        ensures
            final(self).well_formed(),
            final(self).now == old(self).now,
            final(self).total_resident == old(self).total_resident,
            final(self).entries@.len() == old(self).entries@.len(),
            forall|i: int|
                0 <= i < final(self).entries@.len() ==> #[trigger] final(self).entries@[i] == (if old(
                    self,
                ).entries@[i].shard_id == shard_id {
                    LruEntry { pin_count: (old(self).entries@[i].pin_count + 1) as u32, ..old(self).entries@[i] }
                } else {
                    old(self).entries@[i]
                }),
            final(self).entries@ == pinned(old(self).entries@, shard_id),
    {
        self.update_matching(shard_id, 0, 1);
        assert(self.entries@ =~= pinned(old(self).entries@, shard_id));
    }

    /// Releases a lease on shard `shard_id`, when it is listed and pinned.
    pub fn unpin(&mut self, shard_id: u16)
        requires
            old(self).well_formed(),
        ensures
            final(self).well_formed(),
            final(self).now == old(self).now,
            final(self).total_resident == old(self).total_resident,
            final(self).entries@.len() == old(self).entries@.len(),
            forall|i: int|
                0 <= i < final(self).entries@.len() ==> #[trigger] final(self).entries@[i] == (if old(
                    self,
                ).entries@[i].shard_id == shard_id && old(self).entries@[i].pin_count > 0 {
                    LruEntry { pin_count: (old(self).entries@[i].pin_count - 1) as u32, ..old(self).entries@[i] }
                } else {
                    old(self).entries@[i]
                }),
            final(self).entries@ == unpinned(old(self).entries@, shard_id),
    {
        self.update_matching(shard_id, 0, 2);
        assert(self.entries@ =~= unpinned(old(self).entries@, shard_id));
    }
}

/// The entries after a lease is added to shard `id`.
pub open spec fn pinned(es: Seq<LruEntry>, id: u16) -> Seq<LruEntry> {
    Seq::new(
        es.len(),
        |i: int|
            if es[i].shard_id == id {
                LruEntry { pin_count: (es[i].pin_count + 1) as u32, ..es[i] }
            } else {
                es[i]
            },
    )
}

/// The entries after a lease on shard `id` is released.
pub open spec fn unpinned(es: Seq<LruEntry>, id: u16) -> Seq<LruEntry> {
    Seq::new(
        es.len(),
        |i: int|
            if es[i].shard_id == id && es[i].pin_count > 0 {
                LruEntry { pin_count: (es[i].pin_count - 1) as u32, ..es[i] }
            } else {
                es[i]
            },
    )
}

/// Releasing a lease undoes taking it: pinning a shard and then unpinning
/// it leaves every entry as it was.
pub proof fn lemma_unpin_undoes_pin(es: Seq<LruEntry>, id: u16)
    requires
        forall|i: int| 0 <= i < es.len() && #[trigger] es[i].shard_id == id ==> es[i].pin_count < u32::MAX,
    ensures
        unpinned(pinned(es, id), id) == es,
{
    assert(unpinned(pinned(es, id), id) =~= es);
}

/// The entry after an update of the given mode.
pub open spec fn entry_update(e: LruEntry, now: u64, mode: u8) -> LruEntry {
    if mode == 0 {
        LruEntry { last_use: now, ..e }
    } else if mode == 1 {
        LruEntry { pin_count: (e.pin_count + 1) as u32, ..e }
    } else if e.pin_count > 0 {
        LruEntry { pin_count: (e.pin_count - 1) as u32, ..e }
    } else {
        e
    }
}

proof fn lemma_bytes_remove(es: Seq<LruEntry>, v: int)
    requires
        0 <= v < es.len(),
    ensures
        bytes_of(es.remove(v)) == bytes_of(es) - es[v].byte_length,
        bytes_of(es) >= es[v].byte_length,
    decreases es.len(),
{
    if v == es.len() - 1 {
        assert(es.remove(v) =~= es.drop_last());
        lemma_bytes_nonneg(es.drop_last());
    } else {
        lemma_bytes_remove(es.drop_last(), v);
        assert(es.remove(v).drop_last() =~= es.drop_last().remove(v));
        assert(es.remove(v).last() == es.last());
    }
}

proof fn lemma_bytes_nonneg(es: Seq<LruEntry>)
    ensures
        bytes_of(es) >= 0,
    decreases es.len(),
{
    if es.len() > 0 {
        lemma_bytes_nonneg(es.drop_last());
    }
}

proof fn lemma_bytes_same(a: Seq<LruEntry>, b: Seq<LruEntry>)
    requires
        a.len() == b.len(),
        forall|k: int| 0 <= k < a.len() ==> #[trigger] a[k].byte_length == b[k].byte_length,
    ensures
        bytes_of(a) == bytes_of(b),
    decreases a.len(),
{
    if a.len() > 0 {
        lemma_bytes_same(a.drop_last(), b.drop_last());
    }
}

} // verus!
