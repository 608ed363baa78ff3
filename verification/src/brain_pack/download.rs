//! Settings of a model download from the Hugging Face Hub, the byte ranges
//! a file is fetched in, and the order in which fetched chunks are written.

use vstd::prelude::*;
use vstd::string::StringExecFns;
use crate::text::str_eq;

verus! {

/// Bytes fetched per ranged request (1 MiB).
pub const CHUNK_SIZE: u64 = 1048576;
/// Ranged requests in flight at once.
pub const MAX_CONCURRENT_CHUNKS: usize = 4;

/// What to download and how.
#[derive(Debug, Clone)]
pub struct DownloadConfig {
    pub repo_id: String,
    pub revision: String,
    /// Files to fetch; empty means every file of the repository.
    pub files: Vec<String>,
    pub output_dir: String,
    pub token: Option<String>,
    pub max_concurrent_chunks: usize,
    pub chunk_size: u64,
}

impl Default for DownloadConfig {
    fn default() -> (r: Self)
        ensures
            r.repo_id@ == Seq::<char>::empty(),
            r.revision@ == "main"@,
            r.files@.len() == 0,
            r.output_dir@ == "."@,
            r.token is None,
            r.max_concurrent_chunks == MAX_CONCURRENT_CHUNKS,
            r.chunk_size == CHUNK_SIZE,
    {
        DownloadConfig {
            repo_id: String::new(),
            revision: String::from_str("main"),
            files: Vec::new(),
            output_dir: String::from_str("."),
            token: None,
            max_concurrent_chunks: MAX_CONCURRENT_CHUNKS,
            chunk_size: CHUNK_SIZE,
        }
    }
}

impl DownloadConfig {
    /// A file of the repository is fetched when no files were named, or
    /// when it is one of them.
    pub open spec fn spec_wants(self, path: Seq<char>) -> bool {
        self.files@.len() == 0 || exists|i: int|
            0 <= i < self.files@.len() && #[trigger] self.files@[i]@ == path
    }

    pub fn wants_file(&self, path: &str) -> (r: bool)
        ensures
            r == self.spec_wants(path@),
    {
        if self.files.len() == 0 {
            return true;
        }
        let mut i: usize = 0;
        while i < self.files.len()
            invariant
                i <= self.files@.len(),
                forall|k: int| 0 <= k < i ==> #[trigger] self.files@[k]@ != path@,
            decreases self.files@.len() - i,
        {
            if str_eq(self.files[i].as_str(), path) {
                return true;
            }
            i = i + 1;
        }
        false
    }
}

/// The `k`-th byte range `[start, end)` of a file of `total` bytes fetched
/// in pieces of `chunk` bytes.
pub open spec fn chunk_range(total: nat, chunk: nat, k: nat) -> (nat, nat) {
    let start = k * chunk;
    let end = if start + chunk < total { start + chunk } else { total };
    (start, end)
}

/// The ranges tile the file: the first starts at 0, each ends where the
/// next starts, none is empty, and the last ends at the end of the file.
pub proof fn lemma_chunks_tile(total: nat, c: nat)
    requires
        0 < c <= total,
    ensures
        ({
            let n = ((total + c - 1) / (c as int)) as nat;
            &&& n >= 1
            &&& chunk_range(total, c, 0).0 == 0
            &&& chunk_range(total, c, (n - 1) as nat).1 == total
            &&& forall|k: nat| k < n ==> #[trigger] chunk_range(total, c, k).0 < chunk_range(total, c, k).1
            &&& forall|k: nat| k + 1 < n ==> #[trigger] chunk_range(total, c, k).1 == chunk_range(total, c, k + 1).0
        }),
{
    let n = ((total + c - 1) / (c as int)) as nat;
    assert(n >= 1 && (n - 1) * c < total && n * c >= total) by (nonlinear_arith)
        requires
            0 < c <= total,
            n == (total + c - 1) / (c as int),
    ;
    assert((n - 1) * c + c == n * c) by (nonlinear_arith);
    assert forall|k: nat| k < n implies #[trigger] chunk_range(total, c, k).0 < chunk_range(total, c, k).1 by {
        assert(k * c < total && k * c < k * c + c) by (nonlinear_arith)
            requires
                k < n,
                n == (total + c - 1) / (c as int),
                0 < c,
        ;
    }
    assert forall|k: nat| k + 1 < n implies #[trigger] chunk_range(total, c, k).1 == chunk_range(total, c, k + 1).0 by {
        assert(k * c + c < total && (k + 1) * c == k * c + c) by (nonlinear_arith)
            requires
                k + 1 < n,
                n == (total + c - 1) / (c as int),
                0 < c,
        ;
    }
}

/// The byte ranges a file of `total` bytes is fetched in: pieces of the
/// configured chunk size (no larger than the file), the last one shorter.
pub fn chunk_ranges(total: u64, chunk_size: u64) -> (r: Vec<(u64, u64)>)
    requires
        total > 0,
        chunk_size > 0,
        (if chunk_size < total {
            total + chunk_size
        } else {
            total + total
        }) - 1 <= u64::MAX,
    ensures
        ({
            let c = if chunk_size < total { chunk_size } else { total };
            &&& r@.len() == (total + c - 1) / (c as int)
            &&& forall|k: int| 0 <= k < r@.len() ==> (#[trigger] r@[k]).0 == chunk_range(total as nat, c as nat, k as nat).0
                && r@[k].1 == chunk_range(total as nat, c as nat, k as nat).1
        }),
{
    let c = if chunk_size < total { chunk_size } else { total };
    let n = (total - 1 + c) / c;
    let mut out: Vec<(u64, u64)> = Vec::new();
    let mut k: u64 = 0;
    let mut start: u64 = 0;
    while k < n
        invariant
            0 < c <= total,
            total + c - 1 <= u64::MAX,
            n == (total + c - 1) / (c as int),
            k <= n,
            k < n ==> start == k * c,
            out@.len() == k,
            forall|j: int| 0 <= j < k ==> (#[trigger] out@[j]).0 == chunk_range(total as nat, c as nat, j as nat).0
                && out@[j].1 == chunk_range(total as nat, c as nat, j as nat).1,
        decreases n - k,
    {
        assert(start < total && start + c <= total + c - 1) by (nonlinear_arith)
            requires
                start == k * c,
                k < n,
                n == (total + c - 1) / (c as int),
                0 < c,
        {
            assert(k + 1 <= (total + c - 1) / (c as int));
            assert((k + 1) * c <= total + c - 1);
        }
        let end = if start + c < total { start + c } else { total };
        out.push((start, end));
        k = k + 1;
        if k < n {
            start = start + c;
        } else {
            start = start;
        }
        assert(k < n ==> start == k * c) by (nonlinear_arith)
            requires
                k < n ==> start == (k - 1) * c + c,
        ;
    }
    out
}

/// Index of the first chunk at or after `i` that has not arrived, or the
/// number of chunks when all from `i` on have.
pub open spec fn first_missing(buf: Seq<Option<Vec<u8>>>, i: int) -> int
    decreases buf.len() - i,
{
    if i >= buf.len() {
        buf.len() as int
    } else if buf[i] is None {
        i
    } else {
        first_missing(buf, i + 1)
    }
}

proof fn lemma_first_missing(buf: Seq<Option<Vec<u8>>>, i: int)
    requires
        0 <= i <= buf.len(),
    ensures
        i <= first_missing(buf, i) <= buf.len(),
        forall|j: int| i <= j < first_missing(buf, i) ==> #[trigger] buf[j] is Some,
        first_missing(buf, i) < buf.len() ==> buf[first_missing(buf, i)] is None,
    decreases buf.len() - i,
{
    if i < buf.len() && buf[i] is Some {
        lemma_first_missing(buf, i + 1);
    }
}

/// Releases, in chunk order, the arrived chunks that can be written now:
/// those from `next` up to the first chunk that has not arrived. Their slots
/// are emptied, and the position of the first missing chunk (where writing
/// resumes) is returned with them.
pub fn release_ready(buf: &mut Vec<Option<Vec<u8>>>, next: usize) -> (r: (Vec<Vec<u8>>, usize))
    requires
        next <= old(buf)@.len(),
    ensures
        ({
            let k = first_missing(old(buf)@, next as int);
            &&& r.1 == k
            &&& next <= k <= old(buf)@.len()
            &&& r.0@.len() == k - next
            &&& forall|j: int|
                0 <= j < r.0@.len() ==> #[trigger] r.0@[j] == old(buf)@[next + j]->Some_0
            &&& final(buf)@.len() == old(buf)@.len()
            &&& forall|i: int|
                0 <= i < old(buf)@.len() ==> #[trigger] final(buf)@[i] == if next <= i < k {
                    None
                } else {
                    old(buf)@[i]
                }
        }),
{
    let ghost orig = buf@;
    proof {
        lemma_first_missing(orig, next as int);
    }
    let ghost k = first_missing(orig, next as int);
    let mut out: Vec<Vec<u8>> = Vec::new();
    let mut j: usize = next;
    while j < buf.len() && buf[j].is_some()
        invariant
            orig == old(buf)@,
            k == first_missing(orig, next as int),
            next <= j <= k <= orig.len(),
            forall|q: int| next <= q < k ==> #[trigger] orig[q] is Some,
            k < orig.len() ==> orig[k] is None,
            buf@.len() == orig.len(),
            out@.len() == j - next,
            forall|q: int| 0 <= q < out@.len() ==> #[trigger] out@[q] == orig[next + q]->Some_0,
            forall|i: int|
                0 <= i < orig.len() ==> #[trigger] buf@[i] == if next <= i < j {
                    None
                } else {
                    orig[i]
                },
        decreases orig.len() - j,
    {
        let mut slot: Option<Vec<u8>> = None;
        std::mem::swap(&mut slot, &mut buf[j]);
        match slot {
            Some(data) => {
                out.push(data);
            },
            None => {
                assert(false);
            },
        }
        j = j + 1;
    }
    (out, j)
}

} // verus!
