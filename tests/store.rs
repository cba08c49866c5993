use market_matcher::model::{Constraint, Property, Subscription, SubscriptionId};
use market_matcher::store::{DemandError, ModifyOfferError, SaveOfferError, SubscriptionStore};

fn prop(key: u64, value: u64) -> Property {
    Property { key, value }
}

fn offer(owner: u64, value: u64) -> Subscription {
    Subscription::new(owner, vec![prop(1, value)], vec![], 10, 1000)
}

#[test]
fn fingerprint_of_known_content() {
    let id = SubscriptionId::generate(7, &vec![prop(5, 10)], &vec![], 1000, 2000);
    assert_eq!(id.value, 16855207126776354100);
    let empty = SubscriptionId::generate(7, &vec![], &vec![], 1000, 2000);
    assert_eq!(empty.value, 3831538704509144462);
}

#[test]
fn fingerprint_depends_on_content() {
    let a = SubscriptionId::generate(1, &vec![prop(1, 2)], &vec![], 0, 5);
    let b = SubscriptionId::generate(1, &vec![prop(1, 2)], &vec![], 0, 5);
    let c = SubscriptionId::generate(2, &vec![prop(1, 2)], &vec![], 0, 5);
    let d = SubscriptionId::generate(1, &vec![prop(1, 3)], &vec![], 0, 5);
    let e = SubscriptionId::generate(1, &vec![prop(1, 2)], &vec![Constraint { key: 1, min: 0, max: 1 }], 0, 5);
    assert_eq!(a, b);
    assert_ne!(a, c);
    assert_ne!(a, d);
    assert_ne!(a, e);
}

#[test]
fn saving_same_offer_twice_keeps_one_copy() {
    let mut store = SubscriptionStore::new();
    let o = offer(1, 5);
    let id = o.id;
    let first = store.save_offer(o.duplicate(), 20);
    assert!(first.is_ok());
    assert_eq!(first.unwrap().id, id);
    let second = store.save_offer(o.duplicate(), 20);
    assert_eq!(second.unwrap_err(), SaveOfferError::AlreadyExists(id));
    let all = store.get_offers(None);
    assert_eq!(all.len(), 1);
    assert_eq!(all[0].id, id);
}

#[test]
fn save_rejects_forged_id() {
    let mut store = SubscriptionStore::new();
    let mut o = offer(1, 5);
    o.id = SubscriptionId { value: 42 };
    assert_eq!(store.save_offer(o, 20).unwrap_err(), SaveOfferError::InvalidId(SubscriptionId { value: 42 }));
    assert_eq!(store.get_offers(None).len(), 0);
}

#[test]
fn save_rejects_expired_and_unsubscribed() {
    let mut store = SubscriptionStore::new();
    let o = offer(1, 5);
    let id = o.id;
    assert_eq!(store.save_offer(o.duplicate(), 1000).unwrap_err(), SaveOfferError::Expired(id));
    assert!(store.save_offer(o.duplicate(), 20).is_ok());
    assert_eq!(store.unsubscribe_offer(id, Some(1), 30), Ok(()));
    assert_eq!(store.save_offer(o.duplicate(), 40).unwrap_err(), SaveOfferError::Unsubscribed(id));
}

#[test]
fn filter_existing_returns_unknown_ids() {
    let mut store = SubscriptionStore::new();
    let a = offer(1, 1);
    let b = offer(1, 2);
    let c = offer(1, 3);
    let (ia, ib, ic) = (a.id, b.id, c.id);
    store.save_offer(a, 20).unwrap();
    store.save_offer(b, 20).unwrap();
    store.unsubscribe_offer(ib, None, 20).unwrap();
    let unknown = SubscriptionId { value: 99 };
    let r = store.filter_existing(&vec![ia, ib, ic, unknown]);
    assert_eq!(r, vec![ic, unknown]);
    assert!(store.filter_existing(&vec![]).is_empty());
}

#[test]
fn unsubscribe_outcomes() {
    let mut store = SubscriptionStore::new();
    let o = offer(1, 5);
    let id = o.id;
    store.save_offer(o, 20).unwrap();
    let missing = SubscriptionId { value: 5 };
    assert_eq!(store.unsubscribe_offer(missing, None, 20), Err(ModifyOfferError::NotFound(missing)));
    assert_eq!(store.unsubscribe_offer(id, Some(2), 20), Err(ModifyOfferError::NotFound(id)));
    assert_eq!(store.unsubscribe_offer(id, Some(1), 1000), Err(ModifyOfferError::Expired(id)));
    assert_eq!(store.unsubscribe_offer(id, Some(1), 20), Ok(()));
    assert_eq!(store.unsubscribe_offer(id, Some(1), 20), Err(ModifyOfferError::Unsubscribed(id)));
    assert!(store.get_offers(None).is_empty());
}

#[test]
fn get_offers_by_owner_and_batch() {
    let mut store = SubscriptionStore::new();
    let a = offer(1, 1);
    let b = offer(2, 2);
    let c = offer(1, 3);
    let (ia, ib, ic) = (a.id, b.id, c.id);
    store.save_offer(a, 20).unwrap();
    store.save_offer(b, 20).unwrap();
    store.save_offer(c, 20).unwrap();
    let mine: Vec<SubscriptionId> = store.get_offers(Some(1)).iter().map(|o| o.id).collect();
    assert_eq!(mine, vec![ia, ic]);
    let batch: Vec<SubscriptionId> =
        store.get_offers_batch(&vec![ic, ib, SubscriptionId { value: 3 }]).iter().map(|o| o.id).collect();
    assert_eq!(batch, vec![ib, ic]);
}

#[test]
fn demands_create_and_remove() {
    let mut store = SubscriptionStore::new();
    let d = store.create_demand(3, vec![prop(1, 1)], vec![], 10, 100).unwrap();
    let again = store.create_demand(3, vec![prop(1, 1)], vec![], 10, 100);
    assert_eq!(again.unwrap_err(), DemandError::AlreadyExists(d.id));
    assert_eq!(store.remove_demand(d.id, 4), Err(DemandError::NotFound(d.id)));
    assert_eq!(store.remove_demand(d.id, 3), Ok(()));
    assert_eq!(store.remove_demand(d.id, 3), Err(DemandError::NotFound(d.id)));
    assert!(store.demands().is_empty());
}
