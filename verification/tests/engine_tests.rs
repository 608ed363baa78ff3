use decoupled_ai::engine_ipc::index::{NgramIndex, NgramIndexConfig, ThreadLocalNgramIndex};
use decoupled_ai::engine_ipc::ngram::{key_field, NgramKey};
use decoupled_ai::engine_ipc::protocol::{select_backend, model_name_len, BackendChoice, Usage};
use decoupled_ai::engine_ipc::verify::{judge_draft, KvCacheMaskAdjuster, TokenVerification, VerifierMetrics};

#[test]
fn test_ngram_key_packing() {
    let tokens = vec![1, 2, 3, 4];
    let key = NgramKey::from_4gram(&tokens).expect("should pack 4-gram");

    // Verify round-trip
    let unpacked = [
        ((key.0 >> 48) & 0xFFFF) as u32,
        ((key.0 >> 32) & 0xFFFF) as u32,
        ((key.0 >> 16) & 0xFFFF) as u32,
        (key.0 & 0xFFFF) as u32,
    ];
    assert_eq!(&unpacked[..], &tokens[..]);
}

#[test]
fn test_ngram_key_hash() {
    let tokens = vec![100, 200, 300, 400];
    let key1 = NgramKey::from_tokens(&tokens, 4);
    let key2 = NgramKey::from_tokens(&tokens, 4);
    assert_eq!(key1, key2);

    // Different order should give different key
    let key3 = NgramKey::from_tokens(&tokens, 3);
    assert_ne!(key1, key3);
}

#[test]
fn ngram_key_fields_and_limits() {
    let key = NgramKey::from_4gram(&[7, 8, 9, 10]).unwrap();
    assert_eq!(key_field(key, 0), 7);
    assert_eq!(key_field(key, 3), 10);
    assert!(NgramKey::from_4gram(&[1, 2, 3]).is_none());
    assert!(NgramKey::from_4gram(&[1, 2, 3, 70000]).is_none());
}

#[test]
fn test_advance_write_pos() {
    let adjuster = KvCacheMaskAdjuster::new(10, 1, 1, 1);
    assert_eq!(adjuster.advance_write_pos(5, 3), 8);
    assert_eq!(adjuster.advance_write_pos(0, 0), 0);
}

#[test]
fn test_adjusted_mask() {
    let adjuster = KvCacheMaskAdjuster::new(10, 1, 1, 1);
    let mask = adjuster.adjusted_mask(5, 3); // 5 prompt + 3 accepted = 8 total

    assert_eq!(mask.len(), 64); // 8x8

    // Check causal structure
    for i in 0..8 {
        for j in 0..8 {
            let expected = j <= i;
            assert_eq!(mask[i * 8 + j], expected, "Position ({}, {})", i, j);
        }
    }
}

fn verdict(position: usize, draft_token: u32, target_token: u32, accepted: bool) -> TokenVerification {
    TokenVerification { position, draft_token, target_token, accepted, finish_reason: None }
}

#[test]
fn test_handle_rejection() {
    let adjuster = KvCacheMaskAdjuster::new(10, 1, 1, 1);
    let draft = vec![10, 20, 30, 40];

    let verifications = vec![
        verdict(0, 10, 10, true),
        verdict(1, 20, 25, false),
        verdict(2, 30, 30, true),
        verdict(3, 40, 40, true),
    ];

    let (corrected, new_len) = adjuster.handle_rejection(&draft, &verifications, 5);
    // Should correct position 1 to 25, stop after that
    assert_eq!(corrected[0], 10);
    assert_eq!(corrected[1], 25); // Corrected
    assert_eq!(new_len, 7); // 5 prompt + 2 valid (positions 0,1)
}

#[test]
fn judge_accepts_prefix_then_corrects() {
    let j = judge_draft(3, &[1, 2, 3], &[1, 2, 9], &[]);
    assert_eq!(j.accepted_tokens, vec![1, 2, 9]);
    assert_eq!(j.acceptance_count, 2);
    assert!(j.counted);

    let all = judge_draft(0, &[4, 5], &[4, 5], &[]);
    assert_eq!(all.accepted_tokens, vec![4, 5]);
    assert_eq!(all.acceptance_count, 2);

    let empty = judge_draft(0, &[], &[], &[]);
    assert!(empty.accepted_tokens.is_empty());
    assert!(!empty.counted);
}

#[test]
fn verifier_metrics_count() {
    let mut m = VerifierMetrics::new();
    assert_eq!(m.total_verifications, 0);
    m.record(4, 3);
    assert_eq!(m.total_verifications, 4);
    assert_eq!(m.total_accepted, 3);
    assert_eq!(m.total_rejected, 1);
    assert_eq!(m.verification_batches, 1);
}

#[test]
fn test_basic_insert_and_query() {
    let mut index = NgramIndex::default();
    let context = vec![1, 2, 3, 4, 5];
    index.insert(&context);

    // Query 4-gram "2 3 4 5" -> should find continuation 5
    let query_ctx = vec![2, 3, 4, 5];
    let result = index.query(&query_ctx, 4);
    assert!(result.is_some());
    assert!(result.unwrap().contains(&5));
}

#[test]
fn test_backoff_query() {
    let mut index = NgramIndex::default();
    index.insert(&[1, 2, 3, 4, 5]);

    let result = index.backoff_query(&[2, 3, 4, 5]);
    assert!(result.is_some());
    let (order, continuations) = result.unwrap();
    assert_eq!(order, 4);
    assert!(continuations.contains(&5));

    let result = index.backoff_query(&[3, 4, 5]);
    assert!(result.is_some());
    let (order, continuations) = result.unwrap();
    assert_eq!(order, 3);
    assert!(continuations.contains(&5));
}

#[test]
fn test_thread_local_index() {
    let config = NgramIndexConfig::default();
    let mut local = ThreadLocalNgramIndex::new(config, 100);

    local.push_token(1);
    local.push_token(2);
    local.push_token(3);
    local.push_token(4);

    let candidates = local.draft_candidates();
    assert!(!candidates.is_empty() || local.index().token_count() > 0);
}

#[test]
fn test_eviction() {
    let config = NgramIndexConfig { max_order: 2, max_entries: 10, vocab_size: 1000 };
    let max_entries = config.max_entries;
    let mut index = NgramIndex::new(config);

    for i in 0..100 {
        index.insert(&[i, i + 1]);
    }

    assert!(index.unique_ngrams() <= max_entries);
}

#[test]
fn ngram_index_eviction_count() {
    let config = NgramIndexConfig { max_entries: 10, ..NgramIndexConfig::default() };
    let max_entries = config.max_entries;
    let mut index = NgramIndex::new(config);
    // Each 4-token insert records four n-grams; the unigram key is shared,
    // so 1 + 3 * 20 = 61 keys are created and 51 of them evicted.
    for i in 0..20 {
        index.insert(&[i, i + 1, i + 2, i + 3]);
    }
    assert!(index.unique_ngrams() <= max_entries);
    assert_eq!(index.eviction_count(), 51);
}

#[test]
fn ngram_index_backoff_levels() {
    let mut index = NgramIndex::new(NgramIndexConfig::default());
    index.insert(&[1, 2, 3, 4]);
    index.insert(&[1, 2, 3, 5]);
    index.insert(&[2, 3, 4, 6]);
    index.insert(&[1, 2, 3]);
    index.insert(&[2, 3]);
    index.insert(&[3]);

    let (order, results) = index.backoff_query(&[1, 2, 3, 4]).unwrap();
    assert!(results.contains(&4));
    assert!(results.contains(&5));
    assert_eq!(order, 4);

    let (order, results) = index.backoff_query(&[2, 3, 4, 7]).unwrap();
    assert!(results.contains(&6));
    assert_eq!(order, 4);

    let (order, results) = index.backoff_query(&[999, 999, 999, 999]).unwrap();
    assert!(results.iter().any(|&r| r == 2 || r == 3 || r == 4 || r == 5 || r == 6));
    assert_eq!(order, 1);

    assert!(index.token_count() > 0);
    assert!(index.unique_ngrams() > 0);
    assert_eq!(index.best_continuation(&[1, 2, 3, 4]), Some(4));

    index.clear();
    assert_eq!(index.unique_ngrams(), 0);
    assert_eq!(index.token_count(), 0);
    assert!(index.backoff_query(&[1, 2, 3, 4]).is_none());
}

#[test]
fn ngram_index_small_order() {
    let config = NgramIndexConfig { max_order: 2, ..NgramIndexConfig::default() };
    let mut index = NgramIndex::new(config);
    index.insert(&[1, 2]);
    let results = index.backoff_query(&[1, 2]);
    assert!(results.is_some());
    assert!(!results.unwrap().1.is_empty());
}

#[test]
fn thread_local_index_keeps_window() {
    let mut tl = ThreadLocalNgramIndex::new(NgramIndexConfig::default(), 256);
    for t in 1..=4 {
        tl.push_token(t);
    }
    assert!(tl.index().unique_ngrams() > 0);
    for i in 5..300 {
        tl.push_token(i);
    }
    assert!(tl.index().token_count() > 0);
    let before = tl.index().token_count();
    tl.reset();
    // Only the rolling context is cleared; the index keeps what it learned.
    assert_eq!(tl.index().token_count(), before);
}

#[test]
fn test_backend_selection() {
    assert_eq!(select_backend("cpu"), BackendChoice::Cpu);
    assert_eq!(select_backend("AUTO"), BackendChoice::Cpu);
    assert_eq!(select_backend("Cuda"), BackendChoice::Cuda);
    assert_eq!(select_backend("vulkan"), BackendChoice::Unknown);
}

#[test]
fn model_names_of_container_files() {
    assert_eq!(model_name_len("llama.00.brain"), Some(5));
    assert_eq!(model_name_len("llama.brain"), Some(5));
    assert_eq!(model_name_len("llama.gguf"), None);
}

#[test]
fn usage_totals() {
    let u = Usage::new(3, 4);
    assert_eq!(u.total_tokens, 7);
}

use decoupled_ai::engine_ipc::generation::{prefetch_shard, stream_step, Generation, SpecAction, SpecGeneration};

#[test]
fn regular_generation_stops_at_stop_token() {
    let mut g = Generation::new(vec![1, 2], 5, vec![9]);
    assert!(g.wants_token());
    g.push_token(4);
    g.push_token(9);
    assert!(!g.wants_token());
    let r = g.finish();
    assert_eq!(r.tokens, vec![4, 9]);
    assert_eq!(r.finish_reason, "stop");
    let u = r.usage.unwrap();
    assert_eq!((u.prompt_tokens, u.completion_tokens, u.total_tokens), (2, 2, 4));

    let mut g = Generation::new(vec![], 1, vec![]);
    g.push_token(3);
    assert!(!g.wants_token());
}

#[test]
fn speculative_rounds() {
    let mut index = NgramIndex::new(NgramIndexConfig::default());
    let mut s = SpecGeneration::new(vec![1, 2, 3], 8, vec![99]);
    assert!(s.wants_round());
    let act = s.apply_verification(&mut index, &vec![4, 5], 2, 2, true);
    assert_eq!(act, SpecAction::Continue);
    assert_eq!(s.context, vec![1, 2, 3, 4, 5]);
    assert_eq!(s.generated, vec![4, 5]);
    assert_eq!(s.total_accepted, 2);
    assert_eq!(s.total_drafted, 2);
    assert_eq!(s.rounds, 1);
    assert_eq!(index.token_count(), 2);

    let act = s.apply_verification(&mut index, &vec![6, 99, 7], 1, 3, false);
    assert_eq!(act, SpecAction::SampleThenStop);
    assert_eq!(s.generated, vec![4, 5, 6, 99]);
    s.final_token(8);
    assert!(!s.wants_round());
    assert_eq!(s.finish().tokens, vec![4, 5, 6, 99, 8]);

    let mut t = SpecGeneration::new(vec![], 4, vec![]);
    t.fallback_token(11);
    assert_eq!(t.context, vec![11]);
    let act = t.apply_verification(&mut index, &vec![12], 1, 1, false);
    assert_eq!(act, SpecAction::Stop);
    assert!(t.finished);
}

#[test]
fn stream_labels() {
    assert_eq!(stream_step(0, 3, &vec![7], 5), ("stop".to_string(), false));
    assert_eq!(stream_step(1, 3, &vec![7], 7), ("stop".to_string(), true));
    assert_eq!(stream_step(2, 3, &vec![7], 5), ("length".to_string(), true));
    assert_eq!(prefetch_shard(0), 1);
    assert_eq!(prefetch_shard(15), 0);
}

use decoupled_ai::engine_ipc::draft::DraftState;

#[test]
fn drafting_rolls_the_context() {
    let mut index = NgramIndex::new(NgramIndexConfig::default());
    index.insert(&[1, 2, 3]);
    index.insert(&[2, 3, 4]);
    let mut d = DraftState::new(&[1, 2], 2, 3);
    assert!(d.wants_token());
    assert!(!d.should_verify());
    // The last token is the one being continued: for [1, 2] only the
    // unigram level matches, which holds every continuation seen.
    let c = d.candidates(&mut index);
    assert_eq!(c, vec![3, 4]);
    d.accept(3);
    assert_eq!(d.rolling, vec![1, 2, 3]);
    let c = d.candidates(&mut index);
    assert_eq!(c, vec![3]);
    d.accept(4);
    assert_eq!(d.rolling, vec![2, 3, 4]);
    assert_eq!(d.tokens, vec![3, 4]);
    assert!(!d.wants_token());
    assert!(d.should_verify());
}

#[test]
fn every_order_answers_with_the_last_token_after_insert() {
    // A tight cap: eviction runs on every insert once the table is full.
    let config = NgramIndexConfig { max_order: 4, max_entries: 4, vocab_size: 1000 };
    let mut index = NgramIndex::new(config);
    let stream: Vec<u32> = vec![5, 9, 2, 7, 5, 1, 8, 3, 9, 4];
    for end in 1..=stream.len() {
        let ctx = &stream[..end];
        index.insert(ctx);
        assert!(index.unique_ngrams() <= 4);
        for order in 1..=end.min(4) {
            let cont = index.query(ctx, order).expect("recorded order answers");
            assert!(cont.contains(ctx.last().unwrap()));
        }
    }
}
