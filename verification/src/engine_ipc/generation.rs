//! The decisions of a generation loop: when to sample another token, what
//! an accepted draft does to the context and to the n-gram index, how a
//! streamed token is labelled, and what the response reports.
//!
//! Sampling itself (a forward pass of the model) happens outside; these
//! functions take its results.

use vstd::prelude::*;
use vstd::string::StringExecFns;
use crate::engine_ipc::index::NgramIndex;
use crate::engine_ipc::protocol::{GenerateResponse, Usage};

verus! {

/// A regular generation: sample until a stop token or `max_tokens`.
pub struct Generation {
    pub prompt_len: usize,
    pub context: Vec<i32>,
    pub generated: Vec<i32>,
    pub max_tokens: usize,
    pub stop_tokens: Vec<i32>,
    pub stopped: bool,
}

impl Generation {
    pub fn new(prompt: Vec<i32>, max_tokens: usize, stop_tokens: Vec<i32>) -> (r: Generation)
        ensures
            r.prompt_len == prompt@.len(),
            r.context@ == prompt@,
            r.generated@.len() == 0,
            r.max_tokens == max_tokens,
            r.stop_tokens@ == stop_tokens@,
            !r.stopped,
    {
        Generation {
            prompt_len: prompt.len(),
            context: prompt,
            generated: Vec::new(),
            max_tokens,
            stop_tokens,
            stopped: false,
        }
    }

    /// Whether another token is to be sampled: no stop token came and fewer
    /// than `max_tokens` were generated.
    pub fn wants_token(&self) -> (r: bool)
        ensures
            r == (!self.stopped && self.generated@.len() < self.max_tokens),
    {
        !self.stopped && self.generated.len() < self.max_tokens
    }

    /// Takes a sampled token: it joins the context and the output, and a
    /// stop token ends the generation.
    pub fn push_token(&mut self, token: i32)
        ensures
            final(self).context@ == old(self).context@.push(token),
            final(self).generated@ == old(self).generated@.push(token),
            final(self).stopped == (old(self).stopped || old(self).stop_tokens@.contains(token)),
            final(self).prompt_len == old(self).prompt_len,
            final(self).max_tokens == old(self).max_tokens,
            final(self).stop_tokens@ == old(self).stop_tokens@,
    {
        self.context.push(token);
        self.generated.push(token);
        let hit = contains_i32(&self.stop_tokens, token);
        self.stopped = self.stopped || hit;
    }

    /// The response: the generated tokens, finish reason `stop`, and the
    /// prompt and completion counts.
    pub fn finish(self) -> (r: GenerateResponse)
        requires
            self.prompt_len + self.generated@.len() <= usize::MAX,
        ensures
            r.tokens@ == self.generated@,
            r.finish_reason@ == "stop"@,
            r.usage matches Some(u) && u.prompt_tokens == self.prompt_len && u.completion_tokens
                == self.generated@.len() && u.total_tokens == self.prompt_len + self.generated@.len(),
    {
        let n = self.generated.len();
        let usage = Usage::new(self.prompt_len, n);
        GenerateResponse {
            tokens: self.generated,
            finish_reason: String::from_str("stop"),
            usage: Some(usage),
        }
    }
}

fn contains_i32(v: &Vec<i32>, x: i32) -> (r: bool)
    ensures
        r == v@.contains(x),
{
    let mut i: usize = 0;
    while i < v.len()
        invariant
            i <= v@.len(),
            forall|k: int| 0 <= k < i ==> v@[k] != x,
        decreases v@.len() - i,
    {
        if v[i] == x {
            assert(v@[i as int] == x);
            return true;
        }
        i = i + 1;
    }
    false
}

/// What follows a checked draft.
#[derive(Debug, Clone, Copy, PartialEq, Eq, Structural)]
pub enum SpecAction {
    /// Every draft token was accepted: draft again.
    Continue,
    /// A draft token was rejected: sample one token from the target model,
    /// then end.
    SampleThenStop,
    /// The generation ends.
    Stop,
}

/// A generation with speculative decoding, counted in rounds.
pub struct SpecGeneration {
    pub prompt_len: usize,
    pub context: Vec<u32>,
    pub generated: Vec<i32>,
    pub rounds: usize,
    pub max_rounds: usize,
    pub stop_tokens: Vec<i32>,
    pub total_accepted: usize,
    pub total_drafted: usize,
    pub finished: bool,
}

/// How many accepted tokens are taken: up to and including the first stop
/// token, else all.
pub open spec fn taken(acc: Seq<u32>, stops: Seq<i32>, k: nat) -> nat
    decreases acc.len() - k,
{
    if k >= acc.len() {
        acc.len()
    } else if stops.contains(acc[k as int] as i32) {
        k + 1
    } else {
        taken(acc, stops, k + 1)
    }
}

/// One insert of context `ctx` takes the index from `mid` to `b` (an empty
/// context changes nothing).
pub open spec fn insert_step(mid: NgramIndex, b: NgramIndex, ctx: Seq<u32>) -> bool {
    &&& mid.well_formed()
    &&& if ctx.len() == 0 {
        b.table() == mid.table() && b.access() == mid.access() && b.timestamp() == mid.timestamp()
            && b.tokens() == mid.tokens() && b.evictions() == mid.evictions() && b.limits()
            == mid.limits()
    } else {
        mid.inserted(b, ctx)
    }
}

/// `chain` lists the index before and after each insert of `base`
/// followed by a prefix of `toks` (shortest first, `toks` itself excluded).
pub open spec fn insert_chain(chain: Seq<NgramIndex>, base: Seq<u32>, toks: Seq<u32>) -> bool {
    &&& chain.len() == toks.len() + 1
    &&& forall|i: int|
        0 <= i < toks.len() ==> #[trigger] insert_step(
            chain[i],
            chain[i + 1],
            base + toks.subrange(0, i),
        )
}

/// The index goes from `a` to `b` by those inserts.
pub open spec fn inserts_all(a: NgramIndex, b: NgramIndex, base: Seq<u32>, toks: Seq<u32>) -> bool {
    exists|chain: Seq<NgramIndex>|
        #[trigger] insert_chain(chain, base, toks) && chain[0] == a && chain[toks.len() as int] == b
}

proof fn lemma_taken(acc: Seq<u32>, stops: Seq<i32>, k: nat)
    requires
        k <= acc.len(),
    ensures
        k <= taken(acc, stops, k) <= acc.len(),
    decreases acc.len() - k,
{
    if k < acc.len() && !stops.contains(acc[k as int] as i32) {
        lemma_taken(acc, stops, k + 1);
    }
}

impl SpecGeneration {
    pub fn new(prompt: Vec<u32>, max_rounds: usize, stop_tokens: Vec<i32>) -> (r: SpecGeneration)
        ensures
            r.prompt_len == prompt@.len(),
            r.context@ == prompt@,
            r.generated@.len() == 0,
            r.rounds == 0,
            r.max_rounds == max_rounds,
            r.stop_tokens@ == stop_tokens@,
            r.total_accepted == 0,
            r.total_drafted == 0,
            !r.finished,
    {
        SpecGeneration {
            prompt_len: prompt.len(),
            context: prompt,
            generated: Vec::new(),
            rounds: 0,
            max_rounds,
            stop_tokens,
            total_accepted: 0,
            total_drafted: 0,
            finished: false,
        }
    }

    /// Whether another round runs.
    pub fn wants_round(&self) -> (r: bool)
        ensures
            r == (!self.finished && self.rounds < self.max_rounds),
    {
        !self.finished && self.rounds < self.max_rounds
    }

    /// A round without a draft: the target model's token is taken, and a
    /// stop token ends the generation.
    pub fn fallback_token(&mut self, token: i32)
        requires
            old(self).rounds < usize::MAX,
        ensures
            final(self).context@ == old(self).context@.push(token as u32),
            final(self).generated@ == old(self).generated@.push(token),
            final(self).rounds == old(self).rounds + 1,
            final(self).finished == (old(self).finished || old(self).stop_tokens@.contains(token)),
            final(self).total_accepted == old(self).total_accepted,
            final(self).total_drafted == old(self).total_drafted,
            final(self).prompt_len == old(self).prompt_len,
            final(self).max_rounds == old(self).max_rounds,
            final(self).stop_tokens@ == old(self).stop_tokens@,
    {
        self.context.push(token as u32);
        self.generated.push(token);
        self.rounds = self.rounds + 1;
        let hit = contains_i32(&self.stop_tokens, token);
        self.finished = self.finished || hit;
    }

    /// A checked draft of `draft_len` tokens, of which the verifier accepted
    /// `accepted` (`acceptance_count` of them draft tokens): the accepted
    /// tokens join the context one by one, each after the context so far is
    /// recorded in the index, up to the first stop token. Then the round
    /// continues when everything was accepted and generation may go on,
    /// samples once more after a rejection, and ends otherwise.
    pub fn apply_verification(
        &mut self,
        index: &mut NgramIndex,
        accepted: &Vec<u32>,
        acceptance_count: usize,
        draft_len: usize,
        continue_generation: bool,
    ) -> (r: SpecAction)
        requires
            old(index).well_formed(),
            old(self).total_accepted + accepted@.len() <= usize::MAX,
            old(self).total_drafted + draft_len <= usize::MAX,
            old(self).rounds < usize::MAX,
        ensures
            ({
                let m = taken(accepted@, old(self).stop_tokens@, 0);
                let toks = accepted@.subrange(0, m as int);
                &&& final(index).well_formed()
                &&& inserts_all(*old(index), *final(index), old(self).context@, toks)
                &&& final(self).context@ == old(self).context@ + toks
                &&& final(self).generated@ == old(self).generated@ + toks.map_values(|t: u32| t as i32)
                &&& final(self).total_accepted == old(self).total_accepted + m
                &&& final(self).total_drafted == old(self).total_drafted + draft_len
                &&& final(self).rounds == old(self).rounds + 1
                &&& final(self).prompt_len == old(self).prompt_len
                &&& final(self).max_rounds == old(self).max_rounds
                &&& final(self).stop_tokens@ == old(self).stop_tokens@
                &&& r == (if continue_generation && acceptance_count == draft_len {
                    SpecAction::Continue
                } else if acceptance_count < draft_len {
                    SpecAction::SampleThenStop
                } else {
                    SpecAction::Stop
                })
                &&& final(self).finished == (old(self).finished || r == SpecAction::Stop)
            }),
    {
        let ghost ctx0 = self.context@;
        let ghost gen0 = self.generated@;
        let ghost idx0 = *index;
        let ghost stops = self.stop_tokens@;
        let ghost acc0 = self.total_accepted;
        let ghost mut chain: Seq<NgramIndex> = seq![*index];
        proof {
            lemma_taken(accepted@, stops, 0);
        }
        let mut k: usize = 0;
        while k < accepted.len()
            invariant_except_break
                k <= accepted@.len(),
                taken(accepted@, stops, 0) == taken(accepted@, stops, k as nat),
            invariant
                k <= accepted@.len(),
                index.well_formed(),
                stops == self.stop_tokens@,
                insert_chain(chain, ctx0, accepted@.subrange(0, k as int)),
                chain[0] == idx0,
                chain[k as int] == *index,
                self.context@ == ctx0 + accepted@.subrange(0, k as int),
                self.generated@ == gen0 + accepted@.subrange(0, k as int).map_values(|t: u32| t as i32),
                self.total_accepted == acc0 + k,
                acc0 + accepted@.len() <= usize::MAX,
                self.total_drafted == old(self).total_drafted,
                self.rounds == old(self).rounds,
                self.prompt_len == old(self).prompt_len,
                self.max_rounds == old(self).max_rounds,
                self.finished == old(self).finished,
            ensures
                k == taken(accepted@, stops, 0),
                index.well_formed(),
                insert_chain(chain, ctx0, accepted@.subrange(0, k as int)),
                chain[0] == idx0,
                chain[k as int] == *index,
                self.context@ == ctx0 + accepted@.subrange(0, k as int),
                self.generated@ == gen0 + accepted@.subrange(0, k as int).map_values(|t: u32| t as i32),
                self.total_accepted == acc0 + k,
                stops == self.stop_tokens@,
                self.total_drafted == old(self).total_drafted,
                self.rounds == old(self).rounds,
                self.prompt_len == old(self).prompt_len,
                self.max_rounds == old(self).max_rounds,
                self.finished == old(self).finished,
            decreases accepted@.len() - k,
        {
            let token = accepted[k];
            let ghost before = *index;
            let ghost pre = accepted@.subrange(0, k as int);
            index.insert(self.context.as_slice());
            proof {
                let post = accepted@.subrange(0, k + 1);
                let old_chain = chain;
                chain = chain.push(*index);
                assert(post.subrange(0, k as int) =~= pre);
                assert(insert_step(before, *index, ctx0 + pre));
                assert forall|i: int| 0 <= i < post.len() implies #[trigger] insert_step(
                    chain[i],
                    chain[i + 1],
                    ctx0 + post.subrange(0, i),
                ) by {
                    if i < k {
                        assert(post.subrange(0, i) =~= pre.subrange(0, i));
                        assert(insert_step(old_chain[i], old_chain[i + 1], ctx0 + pre.subrange(0, i)));
                    }
                }
            }
            self.context.push(token);
            self.generated.push(token as i32);
            self.total_accepted = self.total_accepted + 1;
            proof {
                let post = accepted@.subrange(0, k + 1);
                assert(self.context@ =~= ctx0 + post);
                assert(self.generated@ =~= gen0 + post.map_values(|t: u32| t as i32));
            }
            let hit = contains_i32(&self.stop_tokens, token as i32);
            k = k + 1;
            if hit {
                break;
            }
        }
        proof {
            assert(insert_chain(chain, ctx0, accepted@.subrange(0, k as int)));
        }
        self.total_drafted = self.total_drafted + draft_len;
        self.rounds = self.rounds + 1;
        if continue_generation && acceptance_count == draft_len {
            SpecAction::Continue
        } else if acceptance_count < draft_len {
            SpecAction::SampleThenStop
        } else {
            self.finished = true;
            SpecAction::Stop
        }
    }

    /// The token sampled after a rejection: it is taken and the generation
    /// ends.
    pub fn final_token(&mut self, token: i32)
        ensures
            final(self).context@ == old(self).context@.push(token as u32),
            final(self).generated@ == old(self).generated@.push(token),
            final(self).finished,
            final(self).rounds == old(self).rounds,
            final(self).total_accepted == old(self).total_accepted,
            final(self).total_drafted == old(self).total_drafted,
            final(self).prompt_len == old(self).prompt_len,
    {
        self.context.push(token as u32);
        self.generated.push(token);
        self.finished = true;
    }

    /// The response: the generated tokens, finish reason `stop`, and the
    /// prompt and completion counts.
    pub fn finish(self) -> (r: GenerateResponse)
        requires
            self.prompt_len + self.generated@.len() <= usize::MAX,
        ensures
            r.tokens@ == self.generated@,
            r.finish_reason@ == "stop"@,
            r.usage matches Some(u) && u.prompt_tokens == self.prompt_len && u.completion_tokens
                == self.generated@.len() && u.total_tokens == self.prompt_len + self.generated@.len(),
    {
        let n = self.generated.len();
        let usage = Usage::new(self.prompt_len, n);
        GenerateResponse {
            tokens: self.generated,
            finish_reason: String::from_str("stop"),
            usage: Some(usage),
        }
    }
}

/// How step `i` (from 0) of a stream of at most `max_tokens` tokens labels
/// its token: the last step (a stop token, or the last allowed one) says
/// `stop` for a stop token and `length` otherwise; earlier steps say `stop`.
pub open spec fn stream_label(i: nat, max_tokens: nat, stops: Seq<i32>, token: i32) -> (Seq<char>, bool) {
    let last = stops.contains(token) || i + 1 == max_tokens;
    if last && !stops.contains(token) {
        ("length"@, true)
    } else {
        ("stop"@, last)
    }
}

/// The finish reason sent with streamed token number `i`, and whether it
/// is the last one.
pub fn stream_step(i: usize, max_tokens: usize, stop_tokens: &Vec<i32>, token: i32) -> (r: (String, bool))
    requires
        i < max_tokens,
    ensures
        (r.0@, r.1) == stream_label(i as nat, max_tokens as nat, stop_tokens@, token),
{
    let stop = contains_i32(stop_tokens, token);
    let last = stop || i + 1 == max_tokens;
    if last && !stop {
        (String::from_str("length"), true)
    } else {
        (String::from_str("stop"), last)
    }
}

/// The shard to warm before step `i` of a stream: the one after the
/// step's, counting shards modulo 16.
pub fn prefetch_shard(i: usize) -> (r: u16)
    requires
        (i as u16) < u16::MAX,
    ensures
        r == ((i as u16) + 1) % 16,
{
    ((i as u16) + 1) % 16
}

} // verus!
