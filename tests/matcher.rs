use market_matcher::discovery::{
    propagate_decision, GetOffers, OfferIdsReceived, OfferUnsubscribed, OffersReceived, Propagate, Reason,
};
use market_matcher::matcher::{
    on_get_offers, on_offer_ids_received, on_offer_unsubscribed, on_offers_received, DiscoveryConfig, Matcher,
    MatcherError,
};
use market_matcher::model::{Constraint, Property, Subscription, SubscriptionId};
use market_matcher::store::{DemandError, ModifyOfferError, SaveOfferError, SubscriptionStore};

fn config() -> DiscoveryConfig {
    DiscoveryConfig { mean_random_broadcast_interval_ms: 1000, num_broadcasted_offers: 5 }
}

fn matcher(identities: Vec<u64>) -> Matcher {
    Matcher::new(SubscriptionStore::new(), identities, config())
}

fn prop(key: u64, value: u64) -> Property {
    Property { key, value }
}

#[test]
fn subscribe_offer_matches_and_rejects_duplicates() {
    let mut m = matcher(vec![1]);
    let d = m.subscribe_demand(9, vec![prop(2, 2)], vec![Constraint { key: 1, min: 1, max: 3 }], 0, 100).unwrap();
    let o = m.subscribe_offer(1, vec![prop(1, 2)], vec![], 0, 100).unwrap();
    let proposals = m.resolver.take_proposals();
    assert_eq!(proposals.len(), 1);
    assert_eq!(proposals[0].offer.id, o.id);
    assert_eq!(proposals[0].demand.id, d.id);
    let again = m.subscribe_offer(1, vec![prop(1, 2)], vec![], 0, 100);
    assert_eq!(again.unwrap_err(), MatcherError::SaveOffer(SaveOfferError::AlreadyExists(o.id)));
    let again_d = m.subscribe_demand(9, vec![prop(2, 2)], vec![Constraint { key: 1, min: 1, max: 3 }], 0, 100);
    assert_eq!(again_d.unwrap_err(), MatcherError::Demand(DemandError::AlreadyExists(d.id)));
}

#[test]
fn subscribe_rejects_empty_range() {
    let mut m = matcher(vec![1]);
    let r = m.subscribe_offer(1, vec![], vec![Constraint { key: 1, min: 5, max: 4 }], 0, 100);
    assert_eq!(r.unwrap_err(), MatcherError::InvalidConstraints);
    let r = m.subscribe_demand(1, vec![], vec![Constraint { key: 1, min: 5, max: 4 }], 0, 100);
    assert_eq!(r.unwrap_err(), MatcherError::InvalidConstraints);
    assert!(m.store.get_offers(None).is_empty());
}

#[test]
fn unsubscribe_offer_and_demand() {
    let mut m = matcher(vec![1]);
    let o = m.subscribe_offer(1, vec![prop(1, 2)], vec![], 0, 100).unwrap();
    assert_eq!(m.unsubscribe_offer(o.id, 2, 10), Err(MatcherError::ModifyOffer(ModifyOfferError::NotFound(o.id))));
    assert_eq!(m.unsubscribe_offer(o.id, 1, 10), Ok(()));
    assert_eq!(
        m.unsubscribe_offer(o.id, 1, 10),
        Err(MatcherError::ModifyOffer(ModifyOfferError::Unsubscribed(o.id)))
    );
    let d = m.subscribe_demand(1, vec![], vec![], 0, 100).unwrap();
    assert_eq!(m.unsubscribe_demand(d.id, 1), Ok(()));
    assert_eq!(m.unsubscribe_demand(d.id, 1), Err(MatcherError::Demand(DemandError::NotFound(d.id))));
}

#[test]
fn list_our_offers_covers_every_identity() {
    let mut m = matcher(vec![1, 3]);
    let a = m.subscribe_offer(1, vec![prop(1, 1)], vec![], 0, 100).unwrap();
    m.subscribe_offer(2, vec![prop(1, 2)], vec![], 0, 100).unwrap();
    let c = m.subscribe_offer(3, vec![prop(1, 3)], vec![], 0, 100).unwrap();
    let ids: Vec<SubscriptionId> = m.list_our_offers().iter().map(|o| o.id).collect();
    assert_eq!(ids, vec![a.id, c.id]);
}

#[test]
fn offer_ids_received_returns_difference() {
    let mut m = matcher(vec![1]);
    let a = m.subscribe_offer(1, vec![prop(1, 1)], vec![], 0, 100).unwrap();
    let new_id = SubscriptionId { value: 77 };
    let msg = OfferIdsReceived { offers: vec![a.id, new_id] };
    assert_eq!(on_offer_ids_received(&m, &msg), vec![new_id]);
}

#[test]
fn offers_received_admits_new_and_skips_failures() {
    let mut m = matcher(vec![]);
    m.subscribe_demand(5, vec![], vec![Constraint { key: 1, min: 0, max: 10 }], 0, 100).unwrap();
    let good = Subscription::new(7, vec![prop(1, 3)], vec![], 0, 100);
    let other = Subscription::new(7, vec![prop(2, 3)], vec![], 0, 100);
    let mut forged = Subscription::new(8, vec![], vec![], 0, 100);
    forged.id = SubscriptionId { value: 1 };
    let msg = OffersReceived { offers: vec![good.duplicate(), forged, good.duplicate(), other.duplicate()] };
    let added = on_offers_received(&mut m, &msg, 10);
    assert_eq!(added, vec![good.id, other.id]);
    assert_eq!(m.store.get_offers(None).len(), 2);
    let proposals = m.resolver.take_proposals();
    assert_eq!(proposals.len(), 1);
    assert_eq!(proposals[0].offer.id, good.id);
}

#[test]
fn get_offers_returns_known_bodies() {
    let mut m = matcher(vec![1]);
    let a = m.subscribe_offer(1, vec![prop(1, 1)], vec![], 0, 100).unwrap();
    let msg = GetOffers { offers: vec![SubscriptionId { value: 3 }, a.id] };
    let r = on_get_offers(&m, &msg);
    assert_eq!(r.len(), 1);
    assert_eq!(r[0].id, a.id);
    assert_eq!(r[0].properties, vec![prop(1, 1)]);
}

#[test]
fn unsubscribe_propagation_decisions() {
    let mut m = matcher(vec![1]);
    let a = m.subscribe_offer(1, vec![prop(1, 1)], vec![], 0, 100).unwrap();
    let unknown = OfferUnsubscribed { offer_id: SubscriptionId { value: 12 } };
    assert_eq!(on_offer_unsubscribed(&mut m, Some(1), &unknown, 10), Propagate::No(Reason::NotFound));
    let known = OfferUnsubscribed { offer_id: a.id };
    assert_eq!(on_offer_unsubscribed(&mut m, Some(1), &known, 10), Propagate::Yes);
    assert_eq!(on_offer_unsubscribed(&mut m, Some(1), &known, 10), Propagate::No(Reason::Unsubscribed));
    let b = m.subscribe_offer(1, vec![prop(1, 2)], vec![], 0, 100).unwrap();
    let late = OfferUnsubscribed { offer_id: b.id };
    assert_eq!(on_offer_unsubscribed(&mut m, None, &late, 100), Propagate::No(Reason::Expired));
    let id = SubscriptionId { value: 1 };
    assert_eq!(propagate_decision(&Err(ModifyOfferError::UnsubscribeError(id))), Propagate::Yes);
    assert_eq!(propagate_decision(&Err(ModifyOfferError::UnsubscribedNotRemoved(id))), Propagate::Yes);
    assert_eq!(propagate_decision(&Err(ModifyOfferError::RemoveError(id))), Propagate::Yes);
}
