//! The n-gram continuation index and its per-stream rolling context.

use vstd::prelude::*;
use crate::engine_ipc::ngram::{NgramKey, fnv_tokens, MAX_CONTINUATIONS};
use crate::engine_ipc::tables::{
    ContinuationTable, AccessTimes, continuation_contents, access_contents,
};

verus! {

/// Limits of an n-gram index.
#[derive(Debug, Clone, Copy)]
pub struct NgramIndexConfig {
    /// Highest n-gram order recorded and looked up.
    pub max_order: usize,
    /// Most keys the table keeps.
    pub max_entries: usize,
    /// Vocabulary size.
    pub vocab_size: usize,
}

impl NgramIndexConfig {
    /// 4-grams, four million keys, a 16-bit vocabulary.
    pub fn default() -> (r: NgramIndexConfig)
        ensures
            r.max_order == 4,
            r.max_entries == 4_000_000,
            r.vocab_size == 65536,
    {
        NgramIndexConfig { max_order: 4, max_entries: 4_000_000, vocab_size: 65536 }
    }
}

/// Key of the order-`o` n-gram of `ctx`: the `o - 1` tokens before the last.
pub open spec fn order_key(ctx: Seq<u32>, o: int) -> u64 {
    fnv_tokens(ctx.subrange(ctx.len() - 1 - (o - 1), ctx.len() - 1), (o - 1) as u64)
}

/// A continuation list after `c` was seen: appended when new, the oldest
/// dropped beyond sixteen.
pub open spec fn add_continuation(v: Seq<u32>, c: u32) -> Seq<u32> {
    if v.contains(c) {
        v
    } else if v.len() + 1 > MAX_CONTINUATIONS {
        v.push(c).drop_first()
    } else {
        v.push(c)
    }
}

/// The table after orders `1..=k` of `ctx` were recorded.
pub open spec fn recorded(t: Map<u64, Seq<u32>>, ctx: Seq<u32>, k: nat) -> Map<u64, Seq<u32>>
    decreases k,
{
    if k == 0 {
        t
    } else {
        let t0 = recorded(t, ctx, (k - 1) as nat);
        let key = order_key(ctx, k as int);
        let prev = if t0.contains_key(key) {
            t0[key]
        } else {
            Seq::empty()
        };
        t0.insert(key, add_continuation(prev, ctx.last()))
    }
}

/// The access times after orders `1..=k` of `ctx` were touched at `ts`.
pub open spec fn touched(a: Map<u64, u64>, ctx: Seq<u32>, k: nat, ts: u64) -> Map<u64, u64>
    decreases k,
{
    if k == 0 {
        a
    } else {
        touched(a, ctx, (k - 1) as nat, ts).insert(order_key(ctx, k as int), ts)
    }
}

/// Orders that an insert of `ctx` records.
pub open spec fn orders_recorded(ctx: Seq<u32>, max_order: nat) -> nat {
    if ctx.len() < max_order {
        ctx.len()
    } else {
        max_order
    }
}

/// `e` is a set of `n` keys of `a` whose times are no later than those of
/// the keys that stay.
pub open spec fn oldest_keys(a: Map<u64, u64>, e: Set<u64>, n: nat) -> bool {
    &&& e.finite()
    &&& e.len() == n
    &&& e.subset_of(a.dom())
    &&& forall|x: u64, y: u64|
        #[trigger] e.contains(x) && a.contains_key(y) && !#[trigger] e.contains(y) ==> a[x] <= a[y]
}

/// N-gram continuation index with access-time eviction.
pub struct NgramIndex {
    table: ContinuationTable,
    config: NgramIndexConfig,
    token_count: usize,
    access_time: AccessTimes,
    global_timestamp: u64,
    eviction_count: u64,
}

impl NgramIndex {
    /// Continuation lists by key.
    pub closed spec fn table(self) -> Map<u64, Seq<u32>> {
        continuation_contents(self.table)
    }

    /// Last access time by key.
    pub closed spec fn access(self) -> Map<u64, u64> {
        access_contents(self.access_time)
    }

    /// Time stamp that the next access gets.
    pub closed spec fn timestamp(self) -> u64 {
        self.global_timestamp
    }

    /// Tokens inserted so far.
    pub closed spec fn tokens(self) -> usize {
        self.token_count
    }

    /// Keys evicted so far.
    pub closed spec fn evictions(self) -> u64 {
        self.eviction_count
    }

    /// The limits the index was made with.
    pub closed spec fn limits(self) -> NgramIndexConfig {
        self.config
    }

    /// Both tables have the same finite key set and no list is empty.
    pub open spec fn well_formed(self) -> bool {
        &&& self.table().dom() == self.access().dom()
        &&& self.table().dom().finite()
        &&& forall|k: u64| #[trigger] self.table().contains_key(k) ==> self.table()[k].len() > 0
    }

    pub fn new(config: NgramIndexConfig) -> (r: NgramIndex)
        ensures
            r.well_formed(),
            r.table() == Map::<u64, Seq<u32>>::empty(),
            r.access() == Map::<u64, u64>::empty(),
            r.timestamp() == 0,
            r.tokens() == 0,
            r.evictions() == 0,
            r.limits() == config,
    {
        let r = NgramIndex {
            table: ContinuationTable::new(),
            config,
            token_count: 0,
            access_time: AccessTimes::new(),
            global_timestamp: 0,
            eviction_count: 0,
        };
        assert(r.table().dom() =~= r.access().dom());
        r
    }

    /// An index with the default limits.
    pub fn default() -> (r: NgramIndex)
        ensures
            r.well_formed(),
            r.table() == Map::<u64, Seq<u32>>::empty(),
            r.tokens() == 0,
            r.evictions() == 0,
            r.limits().max_order == 4,
            r.limits().max_entries == 4_000_000,
    {
        NgramIndex::new(NgramIndexConfig::default())
    }

    pub fn eviction_count(&self) -> (r: u64)
        ensures
            r == self.evictions(),
    {
        self.eviction_count
    }

    pub fn token_count(&self) -> (r: usize)
        ensures
            r == self.tokens(),
    {
        self.token_count
    }

    /// Number of keys in the table.
    pub fn unique_ngrams(&self) -> (r: usize)
        ensures
            r == self.table().len(),
    {
        self.table.len()
    }

    /// The limits the index was made with.
    pub fn config(&self) -> (r: NgramIndexConfig)
        ensures
            r == self.limits(),
    {
        self.config
    }
}

/// `c` occurs in `v`.
fn holds_token(v: &Vec<u32>, c: u32) -> (r: bool)
    ensures
        r == v@.contains(c),
{
    let mut i: usize = 0;
    while i < v.len()
        invariant
            i <= v@.len(),
            forall|j: int| 0 <= j < i ==> v@[j] != c,
        decreases v@.len() - i,
    {
        if v[i] == c {
            assert(v@[i as int] == c);
            return true;
        }
        i = i + 1;
    }
    false
}

impl NgramIndex {
    /// Records orders `1..=n` of `ctx` and touches their keys at `ts`.
    fn record_orders(&mut self, ctx: &[u32], n: usize, ts: u64)
        requires
            old(self).well_formed(),
            1 <= n <= ctx@.len(),
        ensures
            final(self).well_formed(),
            final(self).table() == recorded(old(self).table(), ctx@, n as nat),
            final(self).access() == touched(old(self).access(), ctx@, n as nat, ts),
            final(self).timestamp() == old(self).timestamp(),
            final(self).tokens() == old(self).tokens(),
            final(self).evictions() == old(self).evictions(),
            final(self).limits() == old(self).limits(),
    {
        let c = ctx[ctx.len() - 1];
        let prefix = vstd::slice::slice_subrange(ctx, 0, ctx.len() - 1);
        let mut o: usize = 0;
        while o < n
            invariant
                1 <= n <= ctx@.len(),
                c == ctx@.last(),
                prefix@ == ctx@.subrange(0, ctx@.len() - 1),
                o <= n,
                self.well_formed(),
                self.table() == recorded(old(self).table(), ctx@, o as nat),
                self.access() == touched(old(self).access(), ctx@, o as nat, ts),
                self.timestamp() == old(self).timestamp(),
                self.tokens() == old(self).tokens(),
                self.evictions() == old(self).evictions(),
                self.limits() == old(self).limits(),
            decreases n - o,
        {
            o = o + 1;
            let start = prefix.len() - (o - 1);
            let key_tokens = vstd::slice::slice_subrange(prefix, start, prefix.len());
            assert(key_tokens@ =~= ctx@.subrange(ctx@.len() - 1 - (o - 1), ctx@.len() - 1));
            let key = NgramKey::from_tokens(key_tokens, o - 1).0;
            let ghost t0 = self.table();
            let mut entry: Vec<u32> = match self.table.get(key) {
                Some(v) => v,
                None => Vec::new(),
            };
            if !holds_token(&entry, c) {
                entry.push(c);
                if entry.len() > MAX_CONTINUATIONS {
                    entry.remove(0);
                }
            }
            assert(entry@ =~= add_continuation(
                if t0.contains_key(key) {
                    t0[key]
                } else {
                    Seq::empty()
                },
                c,
            ));
            self.table.insert(key, entry);
            self.access_time.insert(key, ts);
            proof {
                assert(self.table().dom() =~= self.access().dom());
            }
        }
    }

    /// Evicts the `table().len() - max_entries` keys touched longest ago.
    fn evict_oldest(&mut self)
        requires
            old(self).well_formed(),
            old(self).table().len() > old(self).limits().max_entries,
        ensures
            final(self).well_formed(),
            exists|e: Set<u64>|
                #[trigger] oldest_keys(
                    old(self).access(),
                    e,
                    (old(self).table().len() - old(self).limits().max_entries) as nat,
                ) && final(self).table() == old(self).table().remove_keys(e)
                    && final(self).access() == old(self).access().remove_keys(e),
            final(self).evictions() == vstd::wrapping::u64_specs::wrapping_add(
                old(self).evictions(),
                (old(self).table().len() - old(self).limits().max_entries) as u64,
            ),
            final(self).timestamp() == old(self).timestamp(),
            final(self).tokens() == old(self).tokens(),
            final(self).limits() == old(self).limits(),
    {
        let ghost a = self.access();
        let ghost t = self.table();
        let n = self.table.len() - self.config.max_entries;
        let mut rem = self.access_time.entries();
        assert forall|x: int| 0 <= x < rem@.len() implies #[trigger] a.contains_key(rem@[x].0)
            && a[rem@[x].0] == rem@[x].1 by {
            assert(access_contents(self.access_time).contains_key(rem@[x].0));
        }
        let mut gone: Vec<u64> = Vec::new();
        let ghost mut g: Set<u64> = Set::empty();
        assert forall|x: int| 0 <= x < rem@.len() implies #[trigger] a.contains_key(rem@[x].0)
            && a[rem@[x].0] == rem@[x].1 && !g.contains(rem@[x].0) by {
            assert(a.contains_key(rem@[x].0));
        }
        let mut i: usize = 0;
        while i < n
            invariant
                a == self.access(),
                t == self.table(),
                t.dom() == a.dom(),
                a.dom().finite(),
                n <= a.len(),
                i <= n,
                gone@.len() == i,
                g.finite(),
                g.len() == i,
                forall|k: u64| #[trigger] g.contains(k) <==> gone@.contains(k),
                g.subset_of(a.dom()),
                rem@.len() == a.len() - i,
                forall|x: int|
                    0 <= x < rem@.len() ==> #[trigger] a.contains_key(rem@[x].0) && a[rem@[x].0]
                        == rem@[x].1 && !g.contains(rem@[x].0),
                forall|x: int, y: int| 0 <= x < y < rem@.len() ==> #[trigger] rem@[x].0 != #[trigger] rem@[y].0,
                forall|k: u64|
                    #[trigger] a.contains_key(k) && !g.contains(k) ==> exists|x: int|
                        0 <= x < rem@.len() && rem@[x].0 == k,
                forall|k: u64, x: int|
                    #[trigger] g.contains(k) && 0 <= x < rem@.len() ==> a[k] <= #[trigger] rem@[x].1,
            decreases n - i,
        {
            let mut m: usize = 0;
            let mut j: usize = 1;
            while j < rem.len()
                invariant
                    rem@.len() > 0,
                    m < rem@.len(),
                    1 <= j <= rem@.len(),
                    m < j,
                    forall|x: int| 0 <= x < j ==> rem@[m as int].1 <= #[trigger] rem@[x].1,
                decreases rem@.len() - j,
            {
                if rem[j].1 < rem[m].1 {
                    m = j;
                }
                j = j + 1;
            }
            let ghost old_rem = rem@;
            let pick = rem.remove(m);
            let k = pick.0;
            proof {
                assert forall|kk: u64, x: int|
                    #[trigger] g.insert(k).contains(kk) && 0 <= x < rem@.len() implies a[kk]
                    <= #[trigger] rem@[x].1 by {
                    let ox = if x < m { x } else { x + 1 };
                    assert(rem@[x] == old_rem[ox]);
                    if kk == k {
                        assert(a.contains_key(old_rem[m as int].0));
                        assert(a[k] == old_rem[m as int].1);
                        assert(old_rem[m as int].1 <= old_rem[ox].1);
                    } else {
                        assert(g.contains(kk));
                        assert(a[kk] <= old_rem[ox].1);
                    }
                }
                assert forall|kk: u64| #[trigger] a.contains_key(kk) && !g.insert(k).contains(kk) implies exists|x: int|
                    0 <= x < rem@.len() && rem@[x].0 == kk by {
                    let x0 = choose|x: int| 0 <= x < old_rem.len() && old_rem[x].0 == kk;
                    assert(x0 != m);
                    if x0 < m {
                        assert(rem@[x0] == old_rem[x0]);
                    } else {
                        assert(rem@[x0 - 1] == old_rem[x0]);
                    }
                }
                assert forall|x: int| 0 <= x < rem@.len() implies #[trigger] a.contains_key(rem@[x].0)
                    && a[rem@[x].0] == rem@[x].1 && !g.insert(k).contains(rem@[x].0) by {
                    if x < m {
                        assert(rem@[x] == old_rem[x]);
                        assert(old_rem[x].0 != old_rem[m as int].0);
                    } else {
                        assert(rem@[x] == old_rem[x + 1]);
                        assert(old_rem[x + 1].0 != old_rem[m as int].0);
                    }
                }
                assert forall|x: int, y: int| 0 <= x < y < rem@.len() implies #[trigger] rem@[x].0
                    != #[trigger] rem@[y].0 by {
                    let ox = if x < m { x } else { x + 1 };
                    let oy = if y < m { y } else { y + 1 };
                    assert(rem@[x] == old_rem[ox]);
                    assert(rem@[y] == old_rem[oy]);
                }
                assert(forall|kk: u64| #[trigger] g.contains(kk) <==> gone@.contains(kk));
                g = g.insert(k);
            }
            let ghost old_gone = gone@;
            gone.push(k);
            proof {
                assert(gone@ == old_gone.push(k));
                assert forall|kk: u64| #[trigger] g.contains(kk) <==> gone@.contains(kk) by {
                    if gone@.contains(kk) && kk != k {
                        let z = choose|z: int| 0 <= z < gone@.len() && gone@[z] == kk;
                        assert(z < old_gone.len());
                        assert(old_gone[z] == kk);
                    }
                    if old_gone.contains(kk) {
                        let z = choose|z: int| 0 <= z < old_gone.len() && old_gone[z] == kk;
                        assert(gone@[z] == kk);
                    }
                    if kk == k {
                        assert(gone@[gone@.len() - 1] == k);
                    }
                }
            }
            i = i + 1;
        }
        let mut q: usize = 0;
        let ghost mut removed: Set<u64> = Set::empty();
        while q < gone.len()
            invariant
                q <= gone@.len(),
                forall|k: u64| #[trigger] g.contains(k) <==> gone@.contains(k),
                forall|kk: u64|
                    #[trigger] removed.contains(kk) <==> (exists|z: int| 0 <= z < q && #[trigger] gone@[z] == kk),
                forall|k: u64|
                    #[trigger] self.table().contains_key(k) <==> (t.contains_key(k)
                        && !removed.contains(k)),
                forall|k: u64| #[trigger] self.table().contains_key(k) ==> self.table()[k] == t[k],
                forall|k: u64|
                    #[trigger] self.access().contains_key(k) <==> (a.contains_key(k)
                        && !removed.contains(k)),
                forall|k: u64| #[trigger] self.access().contains_key(k) ==> self.access()[k] == a[k],
                self.timestamp() == old(self).timestamp(),
                self.tokens() == old(self).tokens(),
                self.limits() == old(self).limits(),
                self.evictions() == old(self).evictions(),
            decreases gone@.len() - q,
        {
            let k = gone[q];
            let ghost pre_t = self.table();
            let ghost pre_a = self.access();
            self.table.remove(k);
            self.access_time.remove(k);
            proof {
                let r2 = removed.insert(k);
                assert forall|kk: u64|
                    #[trigger] r2.contains(kk) <==> (exists|z: int| 0 <= z < q + 1 && #[trigger] gone@[z] == kk) by {
                    if r2.contains(kk) && kk != k {
                        let z = choose|z: int| 0 <= z < q && #[trigger] gone@[z] == kk;
                        assert(gone@[z] == kk);
                    }
                    if kk == k {
                        assert(gone@[q as int] == kk);
                    }
                    if exists|z: int| 0 <= z < q + 1 && #[trigger] gone@[z] == kk {
                        let z = choose|z: int| 0 <= z < q + 1 && #[trigger] gone@[z] == kk;
                        if z < q {
                            assert(removed.contains(kk));
                        }
                    }
                }
                assert forall|kk: u64| #[trigger] self.table().contains_key(kk) <==> (t.contains_key(kk)
                    && !r2.contains(kk)) by {
                    assert(pre_t.contains_key(kk) <==> (t.contains_key(kk) && !removed.contains(kk)));
                }
                assert forall|kk: u64| #[trigger] self.table().contains_key(kk) implies self.table()[kk] == t[kk] by {
                    assert(pre_t.contains_key(kk));
                }
                assert forall|kk: u64| #[trigger] self.access().contains_key(kk) <==> (a.contains_key(kk)
                    && !r2.contains(kk)) by {
                    assert(pre_a.contains_key(kk) <==> (a.contains_key(kk) && !removed.contains(kk)));
                }
                assert forall|kk: u64| #[trigger] self.access().contains_key(kk) implies self.access()[kk] == a[kk] by {
                    assert(pre_a.contains_key(kk));
                }
                removed = r2;
            }
            q = q + 1;
        }
        proof {
            assert forall|kk: u64| removed.contains(kk) <==> #[trigger] g.contains(kk) by {
                if g.contains(kk) {
                    let z = choose|z: int| 0 <= z < gone@.len() && gone@[z] == kk;
                    assert(gone@[z] == kk);
                }
            }
            assert(removed =~= g);
        }
        proof {
            assert forall|kk: u64| #[trigger] self.table().contains_key(kk) <==> t.remove_keys(g).contains_key(kk) by {
                assert(removed.contains(kk) <==> g.contains(kk));
            }
            assert forall|kk: u64| #[trigger] self.access().contains_key(kk) <==> a.remove_keys(g).contains_key(kk) by {
                assert(removed.contains(kk) <==> g.contains(kk));
            }
            assert(self.table() =~= t.remove_keys(g));
            assert(self.access() =~= a.remove_keys(g));
            assert(self.table().dom() =~= self.access().dom());
            assert(oldest_keys(a, g, n as nat)) by {
                assert forall|x: u64, y: u64|
                    #[trigger] g.contains(x) && a.contains_key(y) && !#[trigger] g.contains(y) implies a[x]
                    <= a[y] by {
                    let z = choose|z: int| 0 <= z < rem@.len() && rem@[z].0 == y;
                    assert(a[x] <= rem@[z].1);
                }
            }
        }
        let ghost done_t = self.table();
        let ghost done_a = self.access();
        proof {
            assert(done_t.dom() =~= t.dom().difference(g));
            assert(t.dom().difference(g).finite());
            assert forall|kk: u64| #[trigger] done_t.contains_key(kk) implies done_t[kk].len() > 0 by {
                assert(t.contains_key(kk));
            }
        }
        self.eviction_count = self.eviction_count.wrapping_add(n as u64);
        proof {
            assert(self.table() == done_t);
            assert(self.access() == done_a);
            assert(oldest_keys(
                old(self).access(),
                g,
                (old(self).table().len() - old(self).limits().max_entries) as nat,
            ));
        }
    }
}

impl NgramIndex {
    /// What an insert of `ctx` leaves: the recorded orders, touched at the
    /// current time stamp, then the oldest keys evicted beyond the cap.
    pub open spec fn inserted(self, next: NgramIndex, ctx: Seq<u32>) -> bool {
        let k = orders_recorded(ctx, self.limits().max_order as nat);
        let t1 = recorded(self.table(), ctx, k);
        let a1 = touched(self.access(), ctx, k, self.timestamp());
        let max = self.limits().max_entries;
        &&& next.timestamp() == vstd::wrapping::u64_specs::wrapping_add(self.timestamp(), 1)
        &&& next.tokens() == vstd::wrapping::usize_specs::wrapping_add(self.tokens(), 1)
        &&& next.limits() == self.limits()
        &&& if t1.len() > max {
            &&& exists|e: Set<u64>|
                #[trigger] oldest_keys(a1, e, (t1.len() - max) as nat) && next.table()
                    == t1.remove_keys(e) && next.access() == a1.remove_keys(e)
            &&& next.evictions() == vstd::wrapping::u64_specs::wrapping_add(
                self.evictions(),
                (t1.len() - max) as u64,
            )
        } else {
            &&& next.table() == t1
            &&& next.access() == a1
            &&& next.evictions() == self.evictions()
        }
    }

    /// Records every n-gram of `context` that ends at its last token, up to
    /// the maximum order, then evicts the oldest keys beyond the cap. An
    /// empty context changes nothing.
    pub fn insert(&mut self, context: &[u32])
        requires
            old(self).well_formed(),
        ensures
            final(self).well_formed(),
            context@.len() == 0 ==> final(self).table() == old(self).table() && final(self).access()
                == old(self).access() && final(self).timestamp() == old(self).timestamp()
                && final(self).tokens() == old(self).tokens() && final(self).evictions()
                == old(self).evictions() && final(self).limits() == old(self).limits(),
            context@.len() > 0 ==> old(self).inserted(*final(self), context@),
    {
        if context.len() == 0 {
            return;
        }
        let ts = self.global_timestamp;
        self.global_timestamp = self.global_timestamp.wrapping_add(1);
        let n = if context.len() < self.config.max_order {
            context.len()
        } else {
            self.config.max_order
        };
        if n > 0 {
            self.record_orders(context, n, ts);
        }
        self.token_count = self.token_count.wrapping_add(1);
        let ghost k = orders_recorded(context@, old(self).limits().max_order as nat);
        let ghost t1 = recorded(old(self).table(), context@, k);
        let ghost a1 = touched(old(self).access(), context@, k, old(self).timestamp());
        assert(k == n);
        assert(self.table() == t1);
        assert(self.access() == a1);
        let ghost mid = *self;
        if self.table.len() > self.config.max_entries {
            self.evict_oldest();
            proof {
                let max = mid.limits().max_entries;
                let e = choose|e: Set<u64>|
                    #[trigger] oldest_keys(mid.access(), e, (mid.table().len() - max) as nat)
                        && self.table() == mid.table().remove_keys(e) && self.access()
                        == mid.access().remove_keys(e);
                assert(oldest_keys(a1, e, (t1.len() - max) as nat));
            }
        }
    }
}

/// After an insert the table holds at most `max_entries` keys.
pub proof fn lemma_insert_respects_cap(before: NgramIndex, after: NgramIndex, ctx: Seq<u32>)
    requires
        before.well_formed(),
        ctx.len() > 0,
        before.inserted(after, ctx),
        recorded(
            before.table(),
            ctx,
            orders_recorded(ctx, before.limits().max_order as nat),
        ).dom().finite(),
    ensures
        after.table().len() <= before.limits().max_entries,
{
    let k = orders_recorded(ctx, before.limits().max_order as nat);
    let t1 = recorded(before.table(), ctx, k);
    let a1 = touched(before.access(), ctx, k, before.timestamp());
    let max = before.limits().max_entries;
    if t1.len() > max {
        let e = choose|e: Set<u64>|
            #[trigger] oldest_keys(a1, e, (t1.len() - max) as nat) && after.table() == t1.remove_keys(
                e,
            ) && after.access() == a1.remove_keys(e);
        lemma_touched_dom(before, ctx, k);
        t1.lemma_remove_keys_len(e);
    }
}

/// The keys of orders `1..=k` of `ctx`.
pub open spec fn order_keys(ctx: Seq<u32>, k: nat) -> Set<u64>
    decreases k,
{
    if k == 0 {
        Set::empty()
    } else {
        order_keys(ctx, (k - 1) as nat).insert(order_key(ctx, k as int))
    }
}

proof fn lemma_order_keys(ctx: Seq<u32>, k: nat)
    ensures
        order_keys(ctx, k).finite(),
        order_keys(ctx, k).len() <= k,
        forall|o: int| 1 <= o <= k ==> #[trigger] order_keys(ctx, k).contains(order_key(ctx, o)),
    decreases k,
{
    if k > 0 {
        lemma_order_keys(ctx, (k - 1) as nat);
        vstd::set::axiom_set_insert_len(order_keys(ctx, (k - 1) as nat), order_key(ctx, k as int));
    }
}

/// Continuation lists keep the sixteen most recent distinct tokens in the
/// order first seen: a token already listed leaves the list as it is; a new
/// token is appended, and when the list was full its oldest (first) token is
/// dropped.
pub proof fn lemma_continuation_fifo(v: Seq<u32>, c: u32)
    requires
        v.len() <= 16,
    ensures
        v.contains(c) ==> add_continuation(v, c) == v,
        !v.contains(c) && v.len() < 16 ==> add_continuation(v, c) == v.push(c),
        !v.contains(c) && v.len() == 16 ==> add_continuation(v, c) == v.subrange(1, 16).push(c),
        !v.contains(c) && v.len() == 16 ==> add_continuation(v, c)[0] == v[1] && add_continuation(
            v,
            c,
        )[15] == c,
{
    if !v.contains(c) && v.len() == 16 {
        assert(v.push(c).drop_first() =~= v.subrange(1, 16).push(c));
    }
}

/// The list an insert leaves under the key of order `o`: the earlier list
/// (or none) with the last token added, when the recorded orders have
/// distinct keys.
pub proof fn lemma_recorded_list(t: Map<u64, Seq<u32>>, ctx: Seq<u32>, k: nat, o: int)
    requires
        1 <= o <= k,
        forall|a: int, b: int| 1 <= a < b <= k ==> #[trigger] order_key(ctx, a) != #[trigger] order_key(ctx, b),
    ensures
        recorded(t, ctx, k).contains_key(order_key(ctx, o)),
        recorded(t, ctx, k)[order_key(ctx, o)] == add_continuation(
            if t.contains_key(order_key(ctx, o)) {
                t[order_key(ctx, o)]
            } else {
                Seq::empty()
            },
            ctx.last(),
        ),
    decreases k,
{
    let km = (k - 1) as nat;
    let key = order_key(ctx, o);
    if o < k {
        lemma_recorded_list(t, ctx, km, o);
        assert(order_key(ctx, o) != order_key(ctx, k as int));
    } else {
        lemma_recorded_untouched(t, ctx, km, key);
    }
}

/// Recording orders `1..=k` leaves a key that none of them has as it was.
proof fn lemma_recorded_untouched(t: Map<u64, Seq<u32>>, ctx: Seq<u32>, k: nat, key: u64)
    requires
        forall|a: int| 1 <= a <= k ==> #[trigger] order_key(ctx, a) != key,
    ensures
        recorded(t, ctx, k).contains_key(key) == t.contains_key(key),
        t.contains_key(key) ==> recorded(t, ctx, k)[key] == t[key],
    decreases k,
{
    if k > 0 {
        assert(order_key(ctx, k as int) != key);
        lemma_recorded_untouched(t, ctx, (k - 1) as nat, key);
    }
}

/// A seen token is in its continuation list afterwards.
proof fn lemma_add_continuation_holds(v: Seq<u32>, c: u32)
    ensures
        add_continuation(v, c).contains(c),
{
    if !v.contains(c) {
        let w = v.push(c);
        assert(w[w.len() - 1] == c);
        if v.len() + 1 > MAX_CONTINUATIONS {
            assert(w.drop_first()[w.len() - 2] == c);
        }
    }
}

/// After orders `1..=k` of `ctx` are recorded, each of them has a list that
/// holds the last token.
proof fn lemma_recorded_answers(t: Map<u64, Seq<u32>>, ctx: Seq<u32>, k: nat)
    ensures
        forall|o: int|
            1 <= o <= k ==> #[trigger] recorded(t, ctx, k).contains_key(order_key(ctx, o)) && recorded(
                t,
                ctx,
                k,
            )[order_key(ctx, o)].contains(ctx.last()),
    decreases k,
{
    if k > 0 {
        let km = (k - 1) as nat;
        lemma_recorded_answers(t, ctx, km);
        let t0 = recorded(t, ctx, km);
        let key = order_key(ctx, k as int);
        let prev = if t0.contains_key(key) {
            t0[key]
        } else {
            Seq::empty()
        };
        lemma_add_continuation_holds(prev, ctx.last());
        assert forall|o: int| 1 <= o <= k implies #[trigger] recorded(t, ctx, k).contains_key(
            order_key(ctx, o),
        ) && recorded(t, ctx, k)[order_key(ctx, o)].contains(ctx.last()) by {
            if o < k && order_key(ctx, o) != key {
                assert(t0.contains_key(order_key(ctx, o)));
            }
        }
    }
}

/// Touching orders `1..=k` at `ts` gives those keys time `ts` and leaves the
/// other keys as they were.
proof fn lemma_touched_times(a: Map<u64, u64>, ctx: Seq<u32>, k: nat, ts: u64)
    ensures
        touched(a, ctx, k, ts).dom() == a.dom() + order_keys(ctx, k),
        forall|x: u64| #[trigger] order_keys(ctx, k).contains(x) ==> touched(a, ctx, k, ts)[x] == ts,
        forall|y: u64|
            a.contains_key(y) && !order_keys(ctx, k).contains(y) ==> #[trigger] touched(a, ctx, k, ts)[y]
                == a[y],
    decreases k,
{
    if k > 0 {
        lemma_touched_times(a, ctx, (k - 1) as nat, ts);
        assert(touched(a, ctx, k, ts).dom() =~= a.dom() + order_keys(ctx, k));
    }
}

/// An insert leaves every recorded order answering with the last token: a
/// lookup of the context at any order from 1 up to the maximum (and no more
/// than the context's length) finds a list that holds its last token. The
/// time stamp must not have wrapped (every access time is earlier than the
/// current stamp), and the cap must leave room for the orders of one insert.
pub proof fn lemma_insert_answers_last(before: NgramIndex, after: NgramIndex, ctx: Seq<u32>)
    requires
        before.well_formed(),
        ctx.len() > 0,
        before.inserted(after, ctx),
        before.limits().max_order <= before.limits().max_entries,
        forall|x: u64| #[trigger] before.access().contains_key(x) ==> before.access()[x]
            < before.timestamp(),
    ensures
        forall|o: int|
            1 <= o <= orders_recorded(ctx, before.limits().max_order as nat) ==> #[trigger] after.hits(
                ctx,
                o,
            ) && after.table()[order_key(ctx, o)].contains(ctx.last()),
{
    let k = orders_recorded(ctx, before.limits().max_order as nat);
    let ts = before.timestamp();
    let t1 = recorded(before.table(), ctx, k);
    let a1 = touched(before.access(), ctx, k, ts);
    let max = before.limits().max_entries;
    let keys = order_keys(ctx, k);
    lemma_recorded_answers(before.table(), ctx, k);
    lemma_touched_dom(before, ctx, k);
    lemma_touched_times(before.access(), ctx, k, ts);
    lemma_order_keys(ctx, k);
    if t1.len() > max {
        let n = (t1.len() - max) as nat;
        let e = choose|e: Set<u64>|
            #[trigger] oldest_keys(a1, e, n) && after.table() == t1.remove_keys(e) && after.access()
                == a1.remove_keys(e);
        assert forall|x: u64| #[trigger] keys.contains(x) implies !e.contains(x) by {
            if e.contains(x) {
                let rest = a1.dom().difference(e);
                assert forall|y: u64| #[trigger] rest.contains(y) implies keys.remove(x).contains(y) by {
                    assert(a1[x] <= a1[y]);
                    if !keys.contains(y) {
                        assert(before.access().contains_key(y));
                    }
                }
                vstd::set_lib::lemma_set_difference_len(a1.dom(), e);
                assert(a1.dom().intersect(e) =~= e);
                vstd::set_lib::lemma_len_subset(rest, keys.remove(x));
                assert(rest.len() == max);
            }
        }
        assert forall|o: int| 1 <= o <= k implies #[trigger] after.hits(ctx, o) && after.table()[order_key(
            ctx,
            o,
        )].contains(ctx.last()) by {
            assert(keys.contains(order_key(ctx, o)));
        }
    }
}

/// Every stored continuation list is non-empty, holds no token twice and at
/// most sixteen tokens.
pub open spec fn lists_ok(t: Map<u64, Seq<u32>>) -> bool {
    forall|k: u64|
        #[trigger] t.contains_key(k) ==> t[k].len() > 0 && t[k].no_duplicates() && t[k].len()
            <= MAX_CONTINUATIONS
}

proof fn lemma_add_continuation_ok(v: Seq<u32>, c: u32)
    requires
        v.no_duplicates(),
        v.len() <= MAX_CONTINUATIONS,
    ensures
        add_continuation(v, c).len() > 0,
        add_continuation(v, c).no_duplicates(),
        add_continuation(v, c).len() <= MAX_CONTINUATIONS,
{
    lemma_add_continuation_holds(v, c);
    if !v.contains(c) {
        let w = v.push(c);
        assert forall|i: int, j: int| 0 <= i < w.len() && 0 <= j < w.len() && i != j implies w[i]
            != w[j] by {
            if i < v.len() && j < v.len() {
                assert(w[i] == v[i] && w[j] == v[j]);
            } else if i < v.len() {
                assert(w[i] == v[i]);
                assert(!v.contains(c));
            } else {
                assert(w[j] == v[j]);
                assert(!v.contains(c));
            }
        }
        if v.len() + 1 > MAX_CONTINUATIONS {
            let d = w.drop_first();
            assert forall|i: int, j: int| 0 <= i < d.len() && 0 <= j < d.len() && i != j implies d[i]
                != d[j] by {
                assert(d[i] == w[i + 1] && d[j] == w[j + 1]);
            }
        }
    }
}

proof fn lemma_recorded_ok(t: Map<u64, Seq<u32>>, ctx: Seq<u32>, k: nat)
    requires
        lists_ok(t),
    ensures
        lists_ok(recorded(t, ctx, k)),
    decreases k,
{
    if k > 0 {
        let km = (k - 1) as nat;
        lemma_recorded_ok(t, ctx, km);
        let t0 = recorded(t, ctx, km);
        let key = order_key(ctx, k as int);
        let prev = if t0.contains_key(key) {
            t0[key]
        } else {
            Seq::empty()
        };
        lemma_add_continuation_ok(prev, ctx.last());
    }
}

/// An insert keeps every continuation list non-empty, free of repeated
/// tokens and at most sixteen long, so every successful lookup returns
/// such a list.
pub proof fn lemma_insert_keeps_lists(before: NgramIndex, after: NgramIndex, ctx: Seq<u32>)
    requires
        lists_ok(before.table()),
        ctx.len() > 0,
        before.inserted(after, ctx),
    ensures
        lists_ok(after.table()),
{
    let k = orders_recorded(ctx, before.limits().max_order as nat);
    let t1 = recorded(before.table(), ctx, k);
    let a1 = touched(before.access(), ctx, k, before.timestamp());
    let max = before.limits().max_entries;
    lemma_recorded_ok(before.table(), ctx, k);
    if t1.len() > max {
        let e = choose|e: Set<u64>|
            #[trigger] oldest_keys(a1, e, (t1.len() - max) as nat) && after.table() == t1.remove_keys(
                e,
            ) && after.access() == a1.remove_keys(e);
        assert forall|x: u64| #[trigger] after.table().contains_key(x) implies after.table()[x].len() > 0
            && after.table()[x].no_duplicates() && after.table()[x].len() <= MAX_CONTINUATIONS by {
            assert(t1.contains_key(x));
        }
    }
}

/// Recording and touching the same orders keep the two key sets equal.
pub proof fn lemma_touched_dom(idx: NgramIndex, ctx: Seq<u32>, k: nat)
    requires
        idx.well_formed(),
    ensures
        recorded(idx.table(), ctx, k).dom() == touched(idx.access(), ctx, k, idx.timestamp()).dom(),
        recorded(idx.table(), ctx, k).dom().finite(),
    decreases k,
{
    if k > 0 {
        lemma_touched_dom(idx, ctx, (k - 1) as nat);
        assert(recorded(idx.table(), ctx, k).dom() =~= touched(idx.access(), ctx, k, idx.timestamp()).dom());
    }
}

/// A lookup of `ctx` at order `o` is well posed: a non-empty context, an
/// order from 1 to the maximum, and enough tokens before the last one.
pub open spec fn query_ok(ctx: Seq<u32>, o: int, max_order: int) -> bool {
    &&& ctx.len() > 0
    &&& 1 <= o <= max_order
    &&& ctx.len() - 1 >= o - 1
}

impl NgramIndex {
    /// A lookup of `ctx` at order `o` finds a key.
    pub open spec fn hits(self, ctx: Seq<u32>, o: int) -> bool {
        query_ok(ctx, o, self.limits().max_order as int) && self.table().contains_key(
            order_key(ctx, o),
        )
    }

    /// The highest order from `o` down to 1 at which `ctx` hits, or 0.
    pub open spec fn best_order(self, ctx: Seq<u32>, o: int) -> int
        decreases o,
    {
        if o < 1 {
            0
        } else if self.hits(ctx, o) {
            o
        } else {
            self.best_order(ctx, o - 1)
        }
    }

    /// Only the access time of `key` moved, to the current stamp, and the
    /// stamp advanced.
    pub open spec fn touched_once(self, next: NgramIndex, key: u64) -> bool {
        &&& next.table() == self.table()
        &&& next.access() == self.access().insert(key, self.timestamp())
        &&& next.timestamp() == vstd::wrapping::u64_specs::wrapping_add(self.timestamp(), 1)
        &&& next.tokens() == self.tokens()
        &&& next.evictions() == self.evictions()
        &&& next.limits() == self.limits()
    }

    /// Nothing the index holds changed.
    pub open spec fn unchanged(self, next: NgramIndex) -> bool {
        &&& next.table() == self.table()
        &&& next.access() == self.access()
        &&& next.timestamp() == self.timestamp()
        &&& next.tokens() == self.tokens()
        &&& next.evictions() == self.evictions()
        &&& next.limits() == self.limits()
    }

    /// Continuations recorded after the `order - 1` tokens that precede the
    /// last token of `context`; a hit refreshes the key's access time.
    pub fn query(&mut self, context: &[u32], order: usize) -> (r: Option<Vec<u32>>)
        requires
            old(self).well_formed(),
        ensures
            final(self).well_formed(),
            old(self).hits(context@, order as int) ==> (r matches Some(v) && v@ == old(self).table()[order_key(
                context@,
                order as int,
            )]) && old(self).touched_once(*final(self), order_key(context@, order as int)),
            !old(self).hits(context@, order as int) ==> r is None && old(self).unchanged(*final(self)),
    {
        if context.len() == 0 || order == 0 || order > self.config.max_order {
            return None;
        }
        if context.len() - 1 < order - 1 {
            return None;
        }
        let prefix = vstd::slice::slice_subrange(context, 0, context.len() - 1);
        let key_tokens = vstd::slice::slice_subrange(prefix, prefix.len() - (order - 1), prefix.len());
        assert(key_tokens@ =~= context@.subrange(
            context@.len() - 1 - (order - 1),
            context@.len() - 1,
        ));
        let key = NgramKey::from_tokens(key_tokens, order - 1).0;
        let result = self.table.get(key);
        if result.is_some() {
            let ts = self.global_timestamp;
            self.global_timestamp = self.global_timestamp.wrapping_add(1);
            self.access_time.insert(key, ts);
            proof {
                assert(self.table().dom() =~= self.access().dom());
            }
        }
        result
    }

    /// Looks `context` up from the maximum order down to order 1 and returns
    /// the first order that has continuations, with them.
    pub fn backoff_query(&mut self, context: &[u32]) -> (r: Option<(usize, Vec<u32>)>)
        requires
            old(self).well_formed(),
        ensures
            final(self).well_formed(),
            ({
                let o = old(self).best_order(context@, old(self).limits().max_order as int);
                if o >= 1 {
                    &&& r matches Some(p) && p.0 == o && p.1@ == old(self).table()[order_key(context@, o)]
                    &&& old(self).touched_once(*final(self), order_key(context@, o))
                } else {
                    &&& r is None
                    &&& old(self).unchanged(*final(self))
                }
            }),
    {
        let ghost start = *self;
        assert(start == *old(self));
        let mut order = self.config.max_order;
        while order >= 1
            invariant
                start == *old(self),
                self.well_formed(),
                start.unchanged(*self),
                order <= start.limits().max_order,
                start.best_order(context@, start.limits().max_order as int) == start.best_order(
                    context@,
                    order as int,
                ),
            decreases order,
        {
            let ghost before = *self;
            match self.query(context, order) {
                Some(v) => {
                    proof {
                        assert(start.hits(context@, order as int) == before.hits(context@, order as int));
                        assert(start.table() == before.table());
                        assert(v@.len() > 0);
                    }
                    if v.len() > 0 {
                        assert(start.best_order(context@, order as int) == order);
                        return Some((order, v));
                    }
                },
                None => {
                    proof {
                        assert(start.hits(context@, order as int) == before.hits(context@, order as int));
                    }
                },
            }
            order = order - 1;
        }
        None
    }

    /// What a lookup of `ctx` at order `o` returns: the stored list when the
    /// lookup hits, else nothing.
    pub open spec fn query_result(self, ctx: Seq<u32>, o: int) -> Option<Seq<u32>> {
        if self.hits(ctx, o) {
            Some(self.table()[order_key(ctx, o)])
        } else {
            None
        }
    }

    /// No order above the best one, up to `o`, hits.
    proof fn lemma_best_order_highest(self, ctx: Seq<u32>, o: int)
        ensures
            0 <= self.best_order(ctx, o) <= if o < 0 { 0 } else { o },
            forall|p: int| self.best_order(ctx, o) < p <= o ==> !#[trigger] self.hits(ctx, p),
        decreases o,
    {
        if o >= 1 && !self.hits(ctx, o) {
            self.lemma_best_order_highest(ctx, o - 1);
        }
    }

    /// The backoff lookup gives the highest order whose single-order lookup
    /// returns a list, with that (non-empty) list; every higher order up to
    /// the maximum returns nothing; and when it finds nothing, no order
    /// from 1 to the maximum returns a list.
    pub proof fn lemma_backoff_is_highest_query(self, ctx: Seq<u32>)
        requires
            self.well_formed(),
        ensures
            ({
                let m = self.limits().max_order as int;
                let o = self.best_order(ctx, m);
                &&& o >= 1 ==> 1 <= o <= m && self.query_result(ctx, o) == Some(
                    self.table()[order_key(ctx, o)],
                ) && self.table()[order_key(ctx, o)].len() > 0
                &&& forall|p: int| o < p <= m ==> #[trigger] self.query_result(ctx, p) is None
                &&& o == 0 ==> forall|p: int| 1 <= p <= m ==> #[trigger] self.query_result(ctx, p) is None
            }),
    {
        let m = self.limits().max_order as int;
        self.lemma_best_order_highest(ctx, m);
        self.lemma_best_order_hits(ctx, m);
    }

    /// The best order, when there is one, hits.
    pub proof fn lemma_best_order_hits(self, ctx: Seq<u32>, o: int)
        ensures
            self.best_order(ctx, o) >= 1 ==> self.hits(ctx, self.best_order(ctx, o)),
        decreases o,
    {
        if o >= 1 && !self.hits(ctx, o) {
            self.lemma_best_order_hits(ctx, o - 1);
        }
    }

    /// The first continuation recorded at the best order, if any.
    pub fn best_continuation(&mut self, context: &[u32]) -> (r: Option<u32>)
        requires
            old(self).well_formed(),
        ensures
            final(self).well_formed(),
            ({
                let o = old(self).best_order(context@, old(self).limits().max_order as int);
                if o >= 1 {
                    r == Some(old(self).table()[order_key(context@, o)][0])
                } else {
                    r is None
                }
            }),
    {
        proof {
            old(self).lemma_best_order_hits(context@, old(self).limits().max_order as int);
        }
        match self.backoff_query(context) {
            Some(p) => Some(p.1[0]),
            None => None,
        }
    }

    /// Every continuation recorded at the best order (none when nothing hits).
    pub fn draft_candidates(&mut self, context: &[u32]) -> (r: Vec<u32>)
        requires
            old(self).well_formed(),
        ensures
            final(self).well_formed(),
            ({
                let o = old(self).best_order(context@, old(self).limits().max_order as int);
                if o >= 1 {
                    r@ == old(self).table()[order_key(context@, o)]
                } else {
                    r@.len() == 0
                }
            }),
    {
        match self.backoff_query(context) {
            Some(p) => p.1,
            None => Vec::new(),
        }
    }

    /// Empties the index and resets the counters (not the eviction count).
    pub fn clear(&mut self)
        ensures
            final(self).well_formed(),
            final(self).table() == Map::<u64, Seq<u32>>::empty(),
            final(self).access() == Map::<u64, u64>::empty(),
            final(self).tokens() == 0,
            final(self).timestamp() == 0,
            final(self).evictions() == old(self).evictions(),
            final(self).limits() == old(self).limits(),
    {
        self.table.clear();
        self.access_time.clear();
        self.token_count = 0;
        self.global_timestamp = 0;
        proof {
            assert(self.table().dom() =~= self.access().dom());
        }
    }
}

/// An n-gram index fed from one stream's rolling context.
pub struct ThreadLocalNgramIndex {
    index: NgramIndex,
    context_buffer: Vec<u32>,
    max_context: usize,
}

impl ThreadLocalNgramIndex {
    /// The underlying index is well formed.
    pub open spec fn well_formed(self) -> bool {
        self.index_view().well_formed()
    }

    /// The underlying index.
    pub closed spec fn index_view(self) -> NgramIndex {
        self.index
    }

    /// The rolling context.
    pub closed spec fn context(self) -> Seq<u32> {
        self.context_buffer@
    }

    /// Longest rolling context kept.
    pub closed spec fn context_cap(self) -> usize {
        self.max_context
    }

    pub fn new(config: NgramIndexConfig, max_context: usize) -> (r: ThreadLocalNgramIndex)
        ensures
            r.well_formed(),
            r.index_view().table() == Map::<u64, Seq<u32>>::empty(),
            r.index_view().tokens() == 0,
            r.index_view().limits() == config,
            r.context() == Seq::<u32>::empty(),
            r.context_cap() == max_context,
    {
        ThreadLocalNgramIndex { index: NgramIndex::new(config), context_buffer: Vec::new(), max_context }
    }

    /// Appends `token` to the rolling context (dropping its oldest token
    /// beyond the cap) and inserts the context into the index.
    pub fn push_token(&mut self, token: u32)
        requires
            old(self).well_formed(),
        ensures
            final(self).well_formed(),
            final(self).context() == (if old(self).context().len() + 1 > old(self).context_cap() {
                old(self).context().push(token).drop_first()
            } else {
                old(self).context().push(token)
            }),
            final(self).context_cap() == old(self).context_cap(),
            final(self).context().len() > 0 ==> old(self).index_view().inserted(
                final(self).index_view(),
                final(self).context(),
            ),
            final(self).context().len() == 0 ==> old(self).index_view().unchanged(
                final(self).index_view(),
            ),
    {
        self.context_buffer.push(token);
        if self.context_buffer.len() > self.max_context {
            self.context_buffer.remove(0);
        }
        self.index.insert(self.context_buffer.as_slice());
    }

    /// Draft candidates for the current rolling context.
    pub fn draft_candidates(&mut self) -> (r: Vec<u32>)
        requires
            old(self).well_formed(),
        ensures
            final(self).well_formed(),
            final(self).context() == old(self).context(),
            ({
                let idx = old(self).index_view();
                let o = idx.best_order(old(self).context(), idx.limits().max_order as int);
                if o >= 1 {
                    r@ == idx.table()[order_key(old(self).context(), o)]
                } else {
                    r@.len() == 0
                }
            }),
    {
        self.index.draft_candidates(self.context_buffer.as_slice())
    }

    /// The first candidate for the current rolling context.
    pub fn best_continuation(&mut self) -> (r: Option<u32>)
        requires
            old(self).well_formed(),
        ensures
            final(self).well_formed(),
            final(self).context() == old(self).context(),
            ({
                let idx = old(self).index_view();
                let o = idx.best_order(old(self).context(), idx.limits().max_order as int);
                if o >= 1 {
                    r == Some(idx.table()[order_key(old(self).context(), o)][0])
                } else {
                    r is None
                }
            }),
    {
        self.index.best_continuation(self.context_buffer.as_slice())
    }

    /// The underlying index.
    pub fn index(&self) -> (r: &NgramIndex)
        ensures
            *r == self.index_view(),
    {
        &self.index
    }

    /// Forgets the rolling context (a new generation starts).
    pub fn reset(&mut self)
        requires
            old(self).well_formed(),
        ensures
            final(self).well_formed(),
            final(self).context() == Seq::<u32>::empty(),
            final(self).index_view() == old(self).index_view(),
            final(self).context_cap() == old(self).context_cap(),
    {
        self.context_buffer.clear();
    }
}

} // verus!
