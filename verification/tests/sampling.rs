use rwkv_web::model::{ModelInfo, ModelVersion};
use rwkv_web::rank::rank_descending;
use rwkv_web::sampler::{last_max_index, pick_token, SimpleSampler};

/// The key whose signed order is the order `f32::total_cmp` gives.
fn key(x: f32) -> i32 {
    let bits = x.to_bits() as i32;
    bits ^ (((bits >> 31) as u32) >> 1) as i32
}

fn keys(xs: &[f32]) -> Vec<i32> {
    xs.iter().map(|x| key(*x)).collect()
}

fn info(num_vocab: usize) -> ModelInfo {
    ModelInfo {
        version: ModelVersion::V7,
        num_layer: 24,
        num_emb: 1024,
        num_hidden: 4096,
        num_vocab,
        num_head: 16,
    }
}

#[test]
fn keys_follow_total_order() {
    let xs = [-1.0f32, -0.0, 0.0, 0.25, 1.0, f32::INFINITY];
    for w in xs.windows(2) {
        assert!(key(w[0]) < key(w[1]));
    }
}

#[test]
fn simple_sampler_takes_most_probable() {
    let sampler = SimpleSampler::new(info(4));
    assert_eq!(sampler.sample(&keys(&[0.1, 0.6, 0.2, 0.1])), 1);
}

#[test]
fn simple_sampler_takes_last_of_equal_maxima() {
    let sampler = SimpleSampler::new(info(8));
    assert_eq!(sampler.sample(&keys(&[0.4, 0.1, 0.4, 0.1])), 2);
}

#[test]
fn simple_sampler_ignores_entries_past_vocabulary() {
    let sampler = SimpleSampler::new(info(2));
    assert_eq!(sampler.sample(&keys(&[0.3, 0.2, 0.5])), 0);
}

#[test]
fn simple_sampler_without_entries_gives_zero() {
    assert_eq!(SimpleSampler::new(info(4)).sample(&[]), 0);
    assert_eq!(SimpleSampler::new(info(0)).sample(&keys(&[1.0])), 0);
}

#[test]
fn simple_sampler_truncates_token_to_u16() {
    let mut probs = vec![0.0f32; 70000];
    probs[65537] = 1.0;
    let sampler = SimpleSampler::new(info(70000));
    assert_eq!(sampler.sample(&keys(&probs)), 1);
}

#[test]
fn last_max_index_cases() {
    assert_eq!(last_max_index(&[3, 9, 9, 1], 10), Some(2));
    assert_eq!(last_max_index(&[3, 9, 9, 1], 2), Some(1));
    assert_eq!(last_max_index(&[-5], 1), Some(0));
    assert_eq!(last_max_index(&[], 3), None);
}

#[test]
fn rank_orders_by_descending_key() {
    let ks = keys(&[0.1, 0.5, 0.2, 0.15]);
    assert_eq!(rank_descending(&ks, usize::MAX), vec![1, 2, 3, 0]);
}

#[test]
fn rank_respects_limit() {
    let ks = keys(&[0.1, 0.5, 0.2, 0.15]);
    assert_eq!(rank_descending(&ks, 3), vec![1, 2, 0]);
    assert_eq!(rank_descending(&ks, 0), Vec::<usize>::new());
}

#[test]
fn rank_with_ties_is_sorted_permutation() {
    let ks = [4, 7, 4, 7, 1];
    let ids = rank_descending(&ks, 5);
    let mut sorted = ids.clone();
    sorted.sort();
    assert_eq!(sorted, vec![0, 1, 2, 3, 4]);
    for w in ids.windows(2) {
        assert!(ks[w[0]] >= ks[w[1]]);
    }
    assert_eq!(ks[ids[0]], 7);
    assert_eq!(ids[4], 4);
}

#[test]
fn pick_first_flagged_candidate() {
    assert_eq!(pick_token(vec![(7, false), (3, true), (5, true)]), 3);
}

#[test]
fn pick_first_candidate_when_none_flagged() {
    assert_eq!(pick_token(vec![(7, false), (3, false)]), 7);
}

#[test]
fn pick_without_candidates_gives_zero() {
    assert_eq!(pick_token(vec![]), 0);
}

#[test]
fn pick_truncates_token_to_u16() {
    assert_eq!(pick_token(vec![(65536 + 42, true)]), 42);
}
