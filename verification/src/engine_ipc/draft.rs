//! Drafting: extending a rolling context with the index's candidates until
//! the draft is long enough or the index has nothing to offer. Which
//! candidate is taken is the sampler's choice and comes from outside.

use vstd::prelude::*;
use crate::engine_ipc::index::{NgramIndex, order_key};

verus! {

/// A draft being built.
pub struct DraftState {
    /// The context the next candidates are looked up for.
    pub rolling: Vec<u32>,
    /// The draft tokens so far.
    pub tokens: Vec<u32>,
    pub max_tokens: usize,
    /// Longest rolling context kept.
    pub max_context: usize,
}

/// The rolling context after `token` is appended: its oldest token is
/// dropped when it grows beyond `cap`.
pub open spec fn rolled(ctx: Seq<u32>, token: u32, cap: nat) -> Seq<u32> {
    if ctx.len() + 1 > cap {
        ctx.push(token).drop_first()
    } else {
        ctx.push(token)
    }
}

impl DraftState {
    pub fn new(context: &[u32], max_tokens: usize, max_context: usize) -> (r: DraftState)
        ensures
            r.rolling@ == context@,
            r.tokens@.len() == 0,
            r.max_tokens == max_tokens,
            r.max_context == max_context,
    {
        let mut rolling: Vec<u32> = Vec::new();
        let mut i: usize = 0;
        while i < context.len()
            invariant
                i <= context@.len(),
                rolling@ == context@.subrange(0, i as int),
            decreases context@.len() - i,
        {
            rolling.push(context[i]);
            assert(rolling@ =~= context@.subrange(0, i + 1));
            i = i + 1;
        }
        assert(context@.subrange(0, context@.len() as int) =~= context@);
        DraftState { rolling, tokens: Vec::new(), max_tokens, max_context }
    }

    /// Whether the draft may grow.
    pub fn wants_token(&self) -> (r: bool)
        ensures
            r == (self.tokens@.len() < self.max_tokens),
    {
        self.tokens.len() < self.max_tokens
    }

    /// The candidates for the next draft token: every continuation the
    /// index records at its best order for the rolling context.
    pub fn candidates(&self, index: &mut NgramIndex) -> (r: Vec<u32>)
        requires
            old(index).well_formed(),
        ensures
            final(index).well_formed(),
            ({
                let o = old(index).best_order(self.rolling@, old(index).limits().max_order as int);
                if o >= 1 {
                    r@ == old(index).table()[order_key(self.rolling@, o)]
                } else {
                    r@.len() == 0
                }
            }),
    {
        index.draft_candidates(self.rolling.as_slice())
    }

    /// Takes the sampled `token` into the draft and the rolling context.
    pub fn accept(&mut self, token: u32)
        ensures
            final(self).tokens@ == old(self).tokens@.push(token),
            final(self).rolling@ == rolled(old(self).rolling@, token, old(self).max_context as nat),
            final(self).max_tokens == old(self).max_tokens,
            final(self).max_context == old(self).max_context,
    {
        self.tokens.push(token);
        self.rolling.push(token);
        if self.rolling.len() > self.max_context {
            self.rolling.remove(0);
        }
    }

    /// A draft is checked only when it has tokens.
    pub fn should_verify(&self) -> (r: bool)
        ensures
            r == (self.tokens@.len() > 0),
    {
        self.tokens.len() > 0
    }
}

} // verus!
