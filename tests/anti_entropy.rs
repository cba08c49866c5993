use market_matcher::anti_entropy::{
    dedup_ids, num_to_broadcast, offers_to_broadcast, random_broadcast_ids, randomize_interval, sampling_pool,
};
use market_matcher::matcher::{DiscoveryConfig, Matcher};
use market_matcher::model::{Property, SubscriptionId};
use market_matcher::store::SubscriptionStore;

fn ids(v: &[u64]) -> Vec<SubscriptionId> {
    v.iter().map(|x| SubscriptionId { value: *x }).collect()
}

fn has_no_duplicates(v: &[SubscriptionId]) -> bool {
    let mut seen: Vec<SubscriptionId> = Vec::new();
    for x in v {
        if seen.contains(x) {
            return false;
        }
        seen.push(*x);
    }
    true
}

#[test]
fn budget_left_after_own_offers() {
    assert_eq!(num_to_broadcast(10, 3), 7);
    assert_eq!(num_to_broadcast(10, 10), 0);
    assert_eq!(num_to_broadcast(10, 12), 0);
    assert_eq!(num_to_broadcast(0, 0), 0);
}

#[test]
fn interval_stays_around_mean() {
    let mut seen: Vec<u64> = Vec::new();
    for _ in 0..50 {
        let r = randomize_interval(1000);
        assert!((500..=1500).contains(&r));
        if !seen.contains(&r) {
            seen.push(r);
        }
    }
    assert!(seen.len() > 1);
    assert_eq!(randomize_interval(0), 0);
    assert!(randomize_interval(u64::MAX) >= u64::MAX / 2);
}

#[test]
fn dedup_and_pool() {
    assert_eq!(dedup_ids(&ids(&[3, 1, 3, 2, 1])), ids(&[3, 1, 2]));
    assert_eq!(sampling_pool(&ids(&[1, 2, 2, 3, 4]), &ids(&[2, 4])), ids(&[1, 3]));
}

#[test]
fn round_contains_own_ids_and_bounded_sample() {
    let ours = ids(&[1, 2, 2]);
    let all = ids(&[1, 2, 3, 4, 5, 6, 7, 8]);
    for _ in 0..20 {
        let r = offers_to_broadcast(&ours, &all, 4);
        assert!(has_no_duplicates(&r));
        assert!(r.contains(&SubscriptionId { value: 1 }));
        assert!(r.contains(&SubscriptionId { value: 2 }));
        assert_eq!(r.len(), 4);
        assert!(r.iter().all(|x| all.contains(x)));
    }
    let small = offers_to_broadcast(&ours, &all, 1);
    assert_eq!(small.len(), 2);
    let whole = offers_to_broadcast(&ours, &all, 100);
    assert_eq!(whole.len(), 8);
}

#[test]
fn matcher_round_includes_own_offers() {
    let config = DiscoveryConfig { mean_random_broadcast_interval_ms: 100, num_broadcasted_offers: 3 };
    let mut m = Matcher::new(SubscriptionStore::new(), vec![1], config);
    let mine = m.subscribe_offer(1, vec![Property { key: 1, value: 1 }], vec![], 0, 100).unwrap();
    for v in 2..8 {
        m.subscribe_offer(2, vec![Property { key: 1, value: v }], vec![], 0, 100).unwrap();
    }
    let r = random_broadcast_ids(&m);
    assert_eq!(r.len(), 3);
    assert!(r.contains(&mine.id));
    assert!(has_no_duplicates(&r));
    assert_eq!(m.config().num_broadcasted_offers, 3);
}
