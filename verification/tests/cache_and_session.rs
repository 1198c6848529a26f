use rwkv_web::cache::Cache;
use rwkv_web::infer::{step_after_batches, step_after_round, InferStep};
use rwkv_web::session::{restore_checkout, CachedState};

#[test]
fn empty_cache_resumes_nothing() {
    let cache: Cache<u32> = Cache::new();
    let co = cache.checkout(&[1, 2, 3]);
    assert_eq!(co.prefix_len, 0);
    assert!(co.item.is_none());
}

#[test]
fn checkout_after_insert_reads_back() {
    let mut cache = Cache::new();
    cache.insert(&[5, 6, 7], "abc");
    let co = cache.checkout(&[5, 6, 7]);
    assert_eq!(co.prefix_len, 3);
    assert_eq!(co.item, Some(&"abc"));
}

#[test]
fn checkout_takes_longest_prefix() {
    let mut cache = Cache::new();
    cache.insert(&[1], 10);
    cache.insert(&[1, 2, 3], 30);
    cache.insert(&[1, 2], 20);
    cache.insert(&[1, 2, 4], 40);
    let co = cache.checkout(&[1, 2, 3, 9, 9]);
    assert_eq!(co.prefix_len, 3);
    assert_eq!(co.item, Some(&30));
    let co = cache.checkout(&[1, 2, 5]);
    assert_eq!(co.prefix_len, 2);
    assert_eq!(co.item, Some(&20));
    let co = cache.checkout(&[1]);
    assert_eq!(co.prefix_len, 1);
    assert_eq!(co.item, Some(&10));
    let co = cache.checkout(&[2, 1]);
    assert_eq!(co.prefix_len, 0);
    assert_eq!(co.item, None);
}

#[test]
fn longer_key_than_tokens_is_not_a_prefix() {
    let mut cache = Cache::new();
    cache.insert(&[1, 2, 3], 1);
    let co = cache.checkout(&[1, 2]);
    assert_eq!(co.item, None);
    assert_eq!(co.prefix_len, 0);
}

#[test]
fn insert_same_tokens_replaces() {
    let mut cache = Cache::new();
    cache.insert(&[3, 4], 1);
    cache.insert(&[3, 4], 2);
    let co = cache.checkout(&[3, 4, 5]);
    assert_eq!(co.prefix_len, 2);
    assert_eq!(co.item, Some(&2));
}

#[test]
fn empty_key_matches_every_prompt() {
    let mut cache = Cache::new();
    cache.insert(&[], 7);
    let co = cache.checkout(&[9, 9]);
    assert_eq!(co.prefix_len, 0);
    assert_eq!(co.item, Some(&7));
}

#[test]
fn clear_forgets_everything() {
    let mut cache = Cache::new();
    cache.insert(&[1, 2], 1);
    cache.insert(&[1], 2);
    cache.clear();
    let co = cache.checkout(&[1, 2]);
    assert_eq!(co.prefix_len, 0);
    assert_eq!(co.item, None);
}

#[test]
fn unrelated_insert_keeps_checkout() {
    let mut cache = Cache::new();
    cache.insert(&[1, 2], 1);
    cache.insert(&[2, 2, 2], 2);
    cache.insert(&[1, 3], 3);
    let co = cache.checkout(&[1, 2, 3]);
    assert_eq!(co.prefix_len, 2);
    assert_eq!(co.item, Some(&1));
}

#[test]
fn restore_from_cached_item() {
    let mut cache = Cache::new();
    cache.insert(&[1, 2], CachedState::new(&[0.5f32, 1.5], &[9.0f32, 8.0, 7.0]));
    let co = cache.checkout(&[1, 2, 3]);
    let mut state = [0.0f32; 2];
    let mut output = [1.0f32; 3];
    let cutoff = restore_checkout(&co, &[4.0, 4.0], 0.0, &mut state, &mut output);
    assert_eq!(cutoff, 2);
    assert_eq!(state, [0.5, 1.5]);
    assert_eq!(output, [9.0, 8.0, 7.0]);
}

#[test]
fn restore_without_cached_item_uses_initial_state() {
    let cache: Cache<CachedState<f32>> = Cache::new();
    let co = cache.checkout(&[1, 2, 3]);
    let mut state = [0.0f32; 2];
    let mut output = [1.0f32; 3];
    let cutoff = restore_checkout(&co, &[4.0, 5.0], 0.0, &mut state, &mut output);
    assert_eq!(cutoff, 0);
    assert_eq!(state, [4.0, 5.0]);
    assert_eq!(output, [0.0, 0.0, 0.0]);
}

#[test]
fn cached_state_copies_buffers() {
    let item = CachedState::new(&[1u8, 2], &[3u8]);
    assert_eq!(item.state, vec![1, 2]);
    assert_eq!(item.output, vec![3]);
}

#[test]
fn inference_rounds() {
    assert_eq!(step_after_round(0), InferStep::RunAgain);
    assert_eq!(step_after_round(65536), InferStep::Finish);
    assert_eq!(step_after_batches(&[]), InferStep::RunAgain);
    assert_eq!(step_after_batches(&[false, false]), InferStep::RunAgain);
    assert_eq!(step_after_batches(&[false, true]), InferStep::Finish);
}

use rwkv_web::session::{CacheError, SessionCache};

#[test]
fn session_cache_reads_back_cached_prompt() {
    let mut cache: SessionCache<f32> = SessionCache::new(2);
    assert_eq!(cache.cache(&[1, 2], &[0.5, 1.5], &[9.0, 8.0, 7.0]), Ok(()));
    assert_eq!(cache.cache(&[4], &[2.0, 2.0], &[1.0]), Ok(()));
    assert_eq!(cache.resume_output_len(&[1, 2, 3]), Some(3));
    let mut state = [0.0f32; 2];
    let mut output = [1.0f32; 3];
    let cutoff = cache.checkout(&[1, 2, 3], &[4.0, 4.0], 0.0, &mut state, &mut output);
    assert_eq!(cutoff, 2);
    assert_eq!(state, [0.5, 1.5]);
    assert_eq!(output, [9.0, 8.0, 7.0]);
}

#[test]
fn session_cache_keeps_latest_entry_of_a_prompt() {
    let mut cache: SessionCache<f32> = SessionCache::new(1);
    assert_eq!(cache.cache(&[7, 7], &[1.0], &[1.0]), Ok(()));
    assert_eq!(cache.cache(&[7], &[3.0], &[3.0]), Ok(()));
    assert_eq!(cache.cache(&[7, 7], &[2.0], &[2.0]), Ok(()));
    let mut state = [0.0f32; 1];
    let mut output = [0.0f32; 1];
    assert_eq!(cache.checkout(&[7, 7], &[5.0], 0.0, &mut state, &mut output), 2);
    assert_eq!(state, [2.0]);
    assert_eq!(output, [2.0]);
}

#[test]
fn session_cache_refuses_state_of_wrong_length() {
    let mut cache: SessionCache<f32> = SessionCache::new(2);
    assert_eq!(
        cache.cache(&[1], &[1.0, 2.0, 3.0], &[0.0]),
        Err(CacheError::StateLength { expected: 2, found: 3 })
    );
    assert_eq!(cache.resume_output_len(&[1]), None);
    assert_eq!(cache.state_len(), 2);
}

#[test]
fn session_cache_without_match_uses_initial_state() {
    let mut cache: SessionCache<f32> = SessionCache::new(2);
    assert_eq!(cache.cache(&[1], &[1.0, 1.0], &[1.0]), Ok(()));
    cache.clear();
    assert_eq!(cache.resume_output_len(&[1, 2]), None);
    let mut state = [0.0f32; 2];
    let mut output = [1.0f32; 2];
    assert_eq!(cache.checkout(&[1, 2], &[6.0, 7.0], 0.0, &mut state, &mut output), 0);
    assert_eq!(state, [6.0, 7.0]);
    assert_eq!(output, [0.0, 0.0]);
}

#[test]
fn session_cache_checkout_twice_on_same_buffers() {
    let mut cache: SessionCache<u8> = SessionCache::new(2);
    assert_eq!(cache.cache(&[1], &[1, 2], &[3]), Ok(()));
    let mut state = [0u8; 2];
    let mut output = [0u8; 1];
    assert_eq!(cache.checkout(&[1, 5], &[9, 9], 0, &mut state, &mut output), 1);
    assert_eq!(cache.checkout(&[2], &[9, 9], 0, &mut state, &mut output), 0);
    assert_eq!(state, [9, 9]);
    assert_eq!(output, [0]);
}
