//! Checking draft tokens against the target model's tokens, and the KV-cache
//! bookkeeping that follows.

use vstd::prelude::*;
use vstd::string::StringExecFns;

verus! {

/// The verdict on one draft token.
#[derive(Debug, Clone)]
pub struct TokenVerification {
    pub position: usize,
    pub draft_token: u32,
    pub target_token: u32,
    pub accepted: bool,
    pub finish_reason: Option<String>,
}

/// Outcome of checking a draft.
#[derive(Debug, Clone)]
pub struct VerificationResult {
    /// Accepted draft tokens, then the target's token at the first mismatch.
    pub accepted_tokens: Vec<u32>,
    pub verifications: Vec<TokenVerification>,
    pub acceptance_count: usize,
    pub continue_generation: bool,
    pub finish_reason: Option<String>,
    /// Whether the check counts toward the verifier's metrics.
    pub counted: bool,
}

/// Where checking stops: the first position whose draft token differs from
/// the target's, or whose accepted token is a stop token; `n` if none.
pub open spec fn stop_point(draft: Seq<u32>, target: Seq<u32>, stops: Seq<u32>, n: int) -> int
    decreases n,
{
    if n <= 0 {
        0
    } else {
        let e = stop_point(draft, target, stops, n - 1);
        if e < n - 1 {
            e
        } else if draft[n - 1] != target[n - 1] || stops.contains(target[n - 1]) {
            n - 1
        } else {
            n
        }
    }
}

/// The verdict on draft position `i`.
pub open spec fn verdict_ok(
    v: TokenVerification,
    prompt_len: usize,
    draft: Seq<u32>,
    target: Seq<u32>,
    stops: Seq<u32>,
    i: int,
) -> bool {
    &&& v.position == prompt_len + i
    &&& v.draft_token == draft[i]
    &&& v.target_token == target[i]
    &&& v.accepted == (draft[i] == target[i])
    &&& (v.finish_reason matches Some(s) ==> s@ == "stop"@)
    &&& (v.finish_reason is Some <==> stops.contains(target[i]))
}

proof fn lemma_stop_point_step(draft: Seq<u32>, target: Seq<u32>, stops: Seq<u32>, k: int)
    requires
        0 <= k,
        stop_point(draft, target, stops, k) == k,
    ensures
        stop_point(draft, target, stops, k + 1) == (if draft[k] != target[k] || stops.contains(
            target[k],
        ) {
            k
        } else {
            k + 1
        }),
{
}

proof fn lemma_stop_point_stays(draft: Seq<u32>, target: Seq<u32>, stops: Seq<u32>, k: int, n: int)
    requires
        0 <= k <= n,
        stop_point(draft, target, stops, k + 1) == k,
    ensures
        stop_point(draft, target, stops, n + 1) == k,
    decreases n - k,
{
    if k < n {
        lemma_stop_point_stays(draft, target, stops, k, n - 1);
    }
}

/// Whether `x` occurs in `s`.
fn contains_token(s: &[u32], x: u32) -> (r: bool)
    ensures
        r == s@.contains(x),
{
    let mut i: usize = 0;
    while i < s.len()
        invariant
            i <= s@.len(),
            forall|j: int| 0 <= j < i ==> s@[j] != x,
        decreases s@.len() - i,
    {
        if s[i] == x {
            assert(s@[i as int] == x);
            return true;
        }
        i = i + 1;
    }
    false
}

/// Checks draft tokens against the target model's tokens at the same
/// positions: tokens are accepted while they match; at the first mismatch
/// the target's token replaces the draft's and checking stops; an accepted
/// stop token ends generation.
pub fn judge_draft(prompt_len: usize, draft: &[u32], target: &[u32], stop_tokens: &[u32]) -> (r:
    VerificationResult)
    requires
        target@.len() == draft@.len(),
        prompt_len + draft@.len() <= usize::MAX,
    ensures
        ({
            let n = draft@.len() as int;
            let e = stop_point(draft@, target@, stop_tokens@, n);
            &&& n == 0 ==> r.accepted_tokens@.len() == 0 && r.verifications@.len() == 0
                && r.acceptance_count == 0 && r.continue_generation && r.finish_reason is None
                && !r.counted
            &&& n > 0 && e < n && draft@[e] == target@[e] ==> {
                &&& r.accepted_tokens@ == draft@.subrange(0, e + 1)
                &&& r.acceptance_count == e + 1
                &&& !r.continue_generation
                &&& r.finish_reason matches Some(s) && s@ == "stop"@
                &&& !r.counted
                &&& r.verifications@.len() == e + 1
            }
            &&& n > 0 && e < n && draft@[e] != target@[e] ==> {
                &&& r.accepted_tokens@ == draft@.subrange(0, e).push(target@[e])
                &&& r.acceptance_count == e
                &&& !r.continue_generation
                &&& r.finish_reason is None
                &&& r.counted
                &&& r.verifications@.len() == e + 1
            }
            &&& n > 0 && e == n ==> {
                &&& r.accepted_tokens@ == draft@
                &&& r.acceptance_count == n
                &&& r.continue_generation
                &&& r.finish_reason is None
                &&& r.counted
                &&& r.verifications@.len() == n
            }
            &&& forall|i: int|
                0 <= i < r.verifications@.len() ==> verdict_ok(
                    #[trigger] r.verifications@[i],
                    prompt_len,
                    draft@,
                    target@,
                    stop_tokens@,
                    i,
                )
        }),
{
    let n = draft.len();
    if n == 0 {
        return VerificationResult {
            accepted_tokens: Vec::new(),
            verifications: Vec::new(),
            acceptance_count: 0,
            continue_generation: true,
            finish_reason: None,
            counted: false,
        };
    }
    let mut accepted: Vec<u32> = Vec::new();
    let mut verifications: Vec<TokenVerification> = Vec::new();
    let mut count: usize = 0;
    let mut i: usize = 0;
    while i < n
        invariant
            n == draft@.len(),
            target@.len() == n,
            prompt_len + n <= usize::MAX,
            i <= n,
            stop_point(draft@, target@, stop_tokens@, i as int) == i,
            count == i,
            accepted@ == draft@.subrange(0, i as int),
            verifications@.len() == i,
            forall|k: int|
                0 <= k < i ==> verdict_ok(
                    #[trigger] verifications@[k],
                    prompt_len,
                    draft@,
                    target@,
                    stop_tokens@,
                    k,
                ),
        decreases n - i,
    {
        let d = draft[i];
        let t = target[i];
        let is_stop = contains_token(stop_tokens, t);
        let reason: Option<String> = if is_stop {
            Some(String::from_str("stop"))
        } else {
            None
        };
        let ok = d == t;
        verifications.push(
            TokenVerification {
                position: prompt_len + i,
                draft_token: d,
                target_token: t,
                accepted: ok,
                finish_reason: reason.clone(),
            },
        );
        proof {
            lemma_stop_point_step(draft@, target@, stop_tokens@, i as int);
        }
        if ok {
            accepted.push(d);
            count = count + 1;
            if is_stop {
                proof {
                    lemma_stop_point_stays(draft@, target@, stop_tokens@, i as int, n - 1);
                    assert(accepted@ =~= draft@.subrange(0, i + 1));
                }
                return VerificationResult {
                    accepted_tokens: accepted,
                    verifications,
                    acceptance_count: count,
                    continue_generation: false,
                    finish_reason: reason,
                    counted: false,
                };
            }
            assert(accepted@ =~= draft@.subrange(0, i + 1));
        } else {
            accepted.push(t);
            proof {
                lemma_stop_point_stays(draft@, target@, stop_tokens@, i as int, n - 1);
            }
            return VerificationResult {
                accepted_tokens: accepted,
                verifications,
                acceptance_count: count,
                continue_generation: false,
                finish_reason: None,
                counted: true,
            };
        }
        i = i + 1;
    }
    assert(accepted@ =~= draft@);
    VerificationResult {
        accepted_tokens: accepted,
        verifications,
        acceptance_count: count,
        continue_generation: true,
        finish_reason: None,
        counted: true,
    }
}

/// Counters of a verifier.
#[derive(Debug, Clone, Copy)]
pub struct VerifierMetrics {
    pub total_verifications: u64,
    pub total_accepted: u64,
    pub total_rejected: u64,
    pub verification_batches: u64,
}

impl VerifierMetrics {
    /// All counters zero.
    pub fn new() -> (r: VerifierMetrics)
        ensures
            r.total_verifications == 0,
            r.total_accepted == 0,
            r.total_rejected == 0,
            r.verification_batches == 0,
    {
        VerifierMetrics {
            total_verifications: 0,
            total_accepted: 0,
            total_rejected: 0,
            verification_batches: 0,
        }
    }

    /// Counts one checked batch of `verified` tokens, `accepted` of them
    /// accepted.
    pub fn record(&mut self, verified: u64, accepted: u64)
        requires
            accepted <= verified,
            old(self).total_verifications + verified <= u64::MAX,
            old(self).total_accepted + accepted <= u64::MAX,
            old(self).total_rejected + (verified - accepted) <= u64::MAX,
            old(self).verification_batches + 1 <= u64::MAX,
        ensures
            final(self).total_verifications == old(self).total_verifications + verified,
            final(self).total_accepted == old(self).total_accepted + accepted,
            final(self).total_rejected == old(self).total_rejected + (verified - accepted),
            final(self).verification_batches == old(self).verification_batches + 1,
    {
        self.total_verifications = self.total_verifications + verified;
        self.total_accepted = self.total_accepted + accepted;
        self.total_rejected = self.total_rejected + (verified - accepted);
        self.verification_batches = self.verification_batches + 1;
    }

    /// Counts a judgement when it counts.
    pub fn record_result(&mut self, j: &VerificationResult)
        requires
            j.acceptance_count <= j.verifications@.len(),
            old(self).total_verifications + j.verifications@.len() <= u64::MAX,
            old(self).total_accepted + j.acceptance_count <= u64::MAX,
            old(self).total_rejected + (j.verifications@.len() - j.acceptance_count) <= u64::MAX,
            old(self).verification_batches + 1 <= u64::MAX,
        ensures
            j.counted ==> final(self).total_verifications == old(self).total_verifications
                + j.verifications@.len() && final(self).total_accepted == old(self).total_accepted
                + j.acceptance_count && final(self).total_rejected == old(self).total_rejected + (
            j.verifications@.len() - j.acceptance_count) && final(self).verification_batches
                == old(self).verification_batches + 1,
            !j.counted ==> *final(self) == *old(self),
    {
        if j.counted {
            self.record(j.verifications.len() as u64, j.acceptance_count as u64);
        }
    }
}

/// Shape of the KV cache whose masks are adjusted.
#[derive(Debug, Clone, Copy)]
pub struct KvCacheMaskAdjuster {
    pub max_seq_len: usize,
    pub num_layers: usize,
    pub num_heads: usize,
    pub head_dim: usize,
}

impl KvCacheMaskAdjuster {
    pub fn new(max_seq_len: usize, num_layers: usize, num_heads: usize, head_dim: usize) -> (r:
        KvCacheMaskAdjuster)
        ensures
            r.max_seq_len == max_seq_len,
            r.num_layers == num_layers,
            r.num_heads == num_heads,
            r.head_dim == head_dim,
    {
        KvCacheMaskAdjuster { max_seq_len, num_layers, num_heads, head_dim }
    }

    /// Causal mask over `prompt_len + accepted_len` positions, row-major:
    /// entry `(i, j)` is set exactly when `j <= i`.
    pub fn adjusted_mask(&self, prompt_len: usize, accepted_len: usize) -> (r: Vec<bool>)
        requires
            (prompt_len + accepted_len) * (prompt_len + accepted_len) <= usize::MAX,
        ensures
            r@.len() == (prompt_len + accepted_len) * (prompt_len + accepted_len),
            forall|i: int, j: int|
                0 <= i < prompt_len + accepted_len && 0 <= j < prompt_len + accepted_len
                    ==> #[trigger] r@[i * (prompt_len + accepted_len) + j] == (j <= i),
    {
        assert(prompt_len + accepted_len <= usize::MAX) by (nonlinear_arith)
            requires
                (prompt_len + accepted_len) * (prompt_len + accepted_len) <= usize::MAX,
        ;
        let total = prompt_len + accepted_len;
        let mut mask: Vec<bool> = Vec::new();
        let mut i: usize = 0;
        while i < total
            invariant
                total == prompt_len + accepted_len,
                total * total <= usize::MAX,
                i <= total,
                mask@.len() == i * total,
                forall|a: int, b: int|
                    0 <= a < i && 0 <= b < total ==> #[trigger] mask@[a * total + b] == (b <= a),
            decreases total - i,
        {
            let mut j: usize = 0;
            let ghost base = mask@;
            while j < total
                invariant
                    total == prompt_len + accepted_len,
                    total * total <= usize::MAX,
                    i < total,
                    j <= total,
                    base.len() == i * total,
                    mask@.len() == i * total + j,
                    mask@.subrange(0, base.len() as int) == base,
                    forall|b: int| 0 <= b < j ==> #[trigger] mask@[i * total + b] == (b <= i),
                decreases total - j,
            {
                proof {
                    assert(i * total + j < total * total) by (nonlinear_arith)
                        requires
                            i < total,
                            j < total,
                    ;
                }
                mask.push(j <= i);
                assert(mask@.subrange(0, base.len() as int) =~= base);
                j = j + 1;
            }
            proof {
                assert forall|a: int, b: int| 0 <= a < i + 1 && 0 <= b < total implies #[trigger] mask@[a
                    * total + b] == (b <= a) by {
                    if a < i {
                        assert(a * total + b < i * total) by (nonlinear_arith)
                            requires
                                a < i,
                                b < total,
                        ;
                        assert(mask@[a * total + b] == mask@.subrange(0, base.len() as int)[a * total
                            + b]);
                    } else {
                        assert(a * total + b == i * total + b);
                    }
                }
                assert((i + 1) * total == i * total + total) by (nonlinear_arith);
            }
            i = i + 1;
        }
        mask
    }

    /// Write position after `accepted_len` more tokens.
    pub fn advance_write_pos(&self, current_pos: usize, accepted_len: usize) -> (r: usize)
        requires
            current_pos + accepted_len <= usize::MAX,
        ensures
            r == current_pos + accepted_len,
    {
        current_pos + accepted_len
    }

    /// After a rejection: the accepted draft tokens up to the first rejected
    /// verdict, then the target's token there; and the KV length advanced by
    /// that position plus one.
    pub fn handle_rejection(&self, draft_tokens: &[u32], verifications: &[TokenVerification], current_kv_len: usize)
        -> (r: (Vec<u32>, usize))
        requires
            current_kv_len + verifications@.len() + 1 <= usize::MAX,
        ensures
            ({
                let idx = first_rejected(verifications@, 0);
                &&& r.0@.len() == (if idx < verifications@.len() {
                    idx + 1
                } else {
                    idx
                })
                &&& forall|k: int| 0 <= k < idx ==> #[trigger] r.0@[k] == verifications@[k].draft_token
                &&& idx < verifications@.len() ==> r.0@[idx] == verifications@[idx].target_token
                &&& r.1 == current_kv_len + idx + 1
            }),
    {
        let mut idx: usize = 0;
        while idx < verifications.len()
            invariant
                idx <= verifications@.len(),
                first_rejected(verifications@, 0) == first_rejected(verifications@, idx as int),
            ensures
                idx <= verifications@.len(),
                first_rejected(verifications@, 0) == idx,
            decreases verifications@.len() - idx,
        {
            if !verifications[idx].accepted {
                break;
            }
            idx = idx + 1;
        }
        let mut corrected: Vec<u32> = Vec::new();
        let mut k: usize = 0;
        while k < idx
            invariant
                idx <= verifications@.len(),
                k <= idx,
                corrected@.len() == k,
                forall|m: int| 0 <= m < k ==> #[trigger] corrected@[m] == verifications@[m].draft_token,
            decreases idx - k,
        {
            corrected.push(verifications[k].draft_token);
            k = k + 1;
        }
        if idx < verifications.len() {
            corrected.push(verifications[idx].target_token);
        }
        (corrected, current_kv_len + idx + 1)
    }
}

/// Position of the first rejected verdict at or after `i`, or the length.
pub open spec fn first_rejected(v: Seq<TokenVerification>, i: int) -> int
    decreases v.len() - i,
{
    if i < 0 || i >= v.len() {
        v.len() as int
    } else if !v[i].accepted {
        i
    } else {
        first_rejected(v, i + 1)
    }
}

} // verus!
