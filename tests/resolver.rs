use market_matcher::model::{is_compatible, Constraint, Property, Subscription};
use market_matcher::resolver::Resolver;
use market_matcher::store::SubscriptionStore;

fn prop(key: u64, value: u64) -> Property {
    Property { key, value }
}

fn needs(key: u64, min: u64, max: u64) -> Constraint {
    Constraint { key, min, max }
}

#[test]
fn symmetric_match_yields_proposal() {
    let mut store = SubscriptionStore::new();
    let demand = store.create_demand(2, vec![prop(10, 1)], vec![needs(1, 4, 8)], 0, 100).unwrap();
    let offer = Subscription::new(1, vec![prop(1, 6)], vec![needs(10, 1, 1)], 0, 100);
    assert!(is_compatible(&offer, &demand));
    let mut resolver = Resolver::new();
    resolver.receive_offer(&store, &offer);
    let proposals = resolver.take_proposals();
    assert_eq!(proposals.len(), 1);
    assert_eq!(proposals[0].offer.id, offer.id);
    assert_eq!(proposals[0].demand.id, demand.id);
    assert_eq!(resolver.pending(), 0);
}

#[test]
fn asymmetric_match_yields_nothing() {
    let mut store = SubscriptionStore::new();
    // The Demand accepts the Offer, but the Offer rejects the Demand.
    store.create_demand(2, vec![prop(10, 5)], vec![needs(1, 4, 8)], 0, 100).unwrap();
    let offer = Subscription::new(1, vec![prop(1, 6)], vec![needs(10, 1, 1)], 0, 100);
    let mut resolver = Resolver::new();
    resolver.receive_offer(&store, &offer);
    assert_eq!(resolver.pending(), 0);
    // The Offer accepts the Demand, but the Demand rejects the Offer.
    let mut store2 = SubscriptionStore::new();
    store2.create_demand(2, vec![prop(10, 1)], vec![needs(1, 7, 8)], 0, 100).unwrap();
    resolver.receive_offer(&store2, &offer);
    assert_eq!(resolver.pending(), 0);
}

#[test]
fn new_demand_matches_stored_offers() {
    let mut store = SubscriptionStore::new();
    let a = store.create_offer(1, vec![prop(1, 3)], vec![], 0, 100).unwrap();
    store.create_offer(1, vec![prop(1, 9)], vec![], 0, 100).unwrap();
    let c = store.create_offer(2, vec![prop(1, 4)], vec![], 0, 100).unwrap();
    let demand = Subscription::new(5, vec![], vec![needs(1, 2, 4)], 0, 100);
    let mut resolver = Resolver::new();
    resolver.receive_demand(&store, &demand);
    let ids: Vec<u64> = resolver.take_proposals().iter().map(|p| p.offer.id.value).collect();
    assert_eq!(ids, vec![a.id.value, c.id.value]);
}

#[test]
fn missing_property_fails_constraint() {
    let offer = Subscription::new(1, vec![prop(2, 6)], vec![], 0, 100);
    let demand = Subscription::new(2, vec![], vec![needs(1, 0, 100)], 0, 100);
    assert!(!is_compatible(&offer, &demand));
    let open = Subscription::new(2, vec![], vec![], 0, 100);
    assert!(is_compatible(&offer, &open));
}
