//! The two hash tables of the n-gram index, kept in `hashbrown` maps; the
//! continuation lists are `smallvec` vectors with room for four tokens
//! inline.

use vstd::prelude::*;

verus! {

/// The empty continuation map.
pub open spec fn no_continuations() -> Map<u64, Seq<u32>> {
    Map::empty()
}

/// The empty access-time map.
pub open spec fn no_access_times() -> Map<u64, u64> {
    Map::empty()
}

/// Continuation lists by n-gram key.
#[verifier::external_body]
pub struct ContinuationTable {
    map: hashbrown::HashMap<u64, smallvec::SmallVec<[u32; 4]>>,
}

/// What a continuation table holds.
pub uninterp spec fn continuation_contents(t: ContinuationTable) -> Map<u64, Seq<u32>>;

impl ContinuationTable {
    /// Wraps `hashbrown::HashMap::new`: an empty map.
    #[verifier::external_body]
    pub(crate) fn new() -> (r: ContinuationTable)
        ensures
            continuation_contents(r) == no_continuations(),
    {
        ContinuationTable { map: hashbrown::HashMap::new() }
    }

    /// Wraps `hashbrown::HashMap::get` and `smallvec::SmallVec::as_slice`: a
    /// copy of the list stored under `k`.
    #[verifier::external_body]
    pub(crate) fn get(&self, k: u64) -> (r: Option<Vec<u32>>)
        ensures
            match r {
                Some(v) => continuation_contents(*self).contains_key(k) && v@
                    == continuation_contents(*self)[k],
                None => !continuation_contents(*self).contains_key(k),
            },
    {
        self.map.get(&k).map(|v| v.as_slice().to_vec())
    }

    /// Wraps `smallvec::SmallVec::from_vec` and `hashbrown::HashMap::insert`:
    /// stores the tokens of `v` under `k`, replacing what was there.
    #[verifier::external_body]
    pub(crate) fn insert(&mut self, k: u64, v: Vec<u32>)
        ensures
            continuation_contents(*final(self)) == continuation_contents(*old(self)).insert(k, v@),
    {
        self.map.insert(k, smallvec::SmallVec::from_vec(v));
    }

    /// Wraps `hashbrown::HashMap::remove`: drops the entry of `k`, if any.
    #[verifier::external_body]
    pub(crate) fn remove(&mut self, k: u64)
        ensures
            continuation_contents(*final(self)) == continuation_contents(*old(self)).remove(k),
    {
        self.map.remove(&k);
    }

    /// Wraps `hashbrown::HashMap::len`: the number of keys.
    #[verifier::external_body]
    pub(crate) fn len(&self) -> (r: usize)
        ensures
            r == continuation_contents(*self).len(),
    {
        self.map.len()
    }

    /// Wraps `hashbrown::HashMap::clear`: drops every entry.
    #[verifier::external_body]
    pub(crate) fn clear(&mut self)
        ensures
            continuation_contents(*final(self)) == no_continuations(),
    {
        self.map.clear();
    }
}

/// Last access time by n-gram key.
#[verifier::external_body]
pub struct AccessTimes {
    map: hashbrown::HashMap<u64, u64>,
}

/// What an access-time table holds.
pub uninterp spec fn access_contents(t: AccessTimes) -> Map<u64, u64>;

impl AccessTimes {
    /// Wraps `hashbrown::HashMap::new`: an empty map.
    #[verifier::external_body]
    pub(crate) fn new() -> (r: AccessTimes)
        ensures
            access_contents(r) == no_access_times(),
    {
        AccessTimes { map: hashbrown::HashMap::new() }
    }

    /// Wraps `hashbrown::HashMap::insert`: stores `t` under `k`.
    #[verifier::external_body]
    pub(crate) fn insert(&mut self, k: u64, t: u64)
        ensures
            access_contents(*final(self)) == access_contents(*old(self)).insert(k, t),
    {
        self.map.insert(k, t);
    }

    /// Wraps `hashbrown::HashMap::remove`: drops the entry of `k`, if any.
    #[verifier::external_body]
    pub(crate) fn remove(&mut self, k: u64)
        ensures
            access_contents(*final(self)) == access_contents(*old(self)).remove(k),
    {
        self.map.remove(&k);
    }

    /// Wraps `hashbrown::HashMap::clear`: drops every entry.
    #[verifier::external_body]
    pub(crate) fn clear(&mut self)
        ensures
            access_contents(*final(self)) == no_access_times(),
    {
        self.map.clear();
    }

    /// Wraps `hashbrown::HashMap::iter`, collected: every entry once, in the
    /// map's own order, which is not stated.
    #[verifier::external_body]
    pub(crate) fn entries(&self) -> (r: Vec<(u64, u64)>)
        ensures
            r@.len() == access_contents(*self).len(),
            forall|i: int|
                0 <= i < r@.len() ==> #[trigger] access_contents(*self).contains_key(r@[i].0)
                    && access_contents(*self)[r@[i].0] == r@[i].1,
            forall|i: int, j: int| 0 <= i < j < r@.len() ==> #[trigger] r@[i].0 != #[trigger] r@[j].0,
            forall|k: u64| #[trigger]
                access_contents(*self).contains_key(k) ==> exists|i: int|
                    0 <= i < r@.len() && r@[i].0 == k,
    {
        self.map.iter().map(|(k, v)| (*k, *v)).collect()
    }
}

} // verus!
