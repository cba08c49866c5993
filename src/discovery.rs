use vstd::prelude::*;
use crate::model::{Offer, SubscriptionId};
use crate::store::{ModifyOfferError, StoreView};

verus! {

/// A peer announces the Offer ids it has.
pub struct OfferIdsReceived {
    pub offers: Vec<SubscriptionId>,
}

/// A peer pushes full Offer bodies.
pub struct OffersReceived {
    pub offers: Vec<Offer>,
}

/// A peer asks for the bodies of these Offers.
pub struct GetOffers {
    pub offers: Vec<SubscriptionId>,
}

/// A peer reports that an Offer was unsubscribed.
#[derive(Clone, Copy, Debug, PartialEq, Eq, Structural)]
pub struct OfferUnsubscribed {
    pub offer_id: SubscriptionId,
}

/// Why an unsubscribe event is not forwarded.
#[derive(Clone, Copy, Debug, PartialEq, Eq, Structural)]
pub enum Reason {
    NotFound,
    Unsubscribed,
    Expired,
}

/// Whether an inbound unsubscribe event is forwarded to further peers.
#[derive(Clone, Copy, Debug, PartialEq, Eq, Structural)]
pub enum Propagate {
    Yes,
    No(Reason),
}

/// Forwarding decision for the outcome of a local unsubscribe. Storage
/// failures still forward, so that an unsubscribe never gets stuck; events
/// known to be stale or handled do not.
pub open spec fn decision(r: Result<(), ModifyOfferError>) -> Propagate {
    match r {
        Ok(()) => Propagate::Yes,
        Err(ModifyOfferError::NotFound(_)) => Propagate::No(Reason::NotFound),
        Err(ModifyOfferError::Unsubscribed(_)) => Propagate::No(Reason::Unsubscribed),
        Err(ModifyOfferError::Expired(_)) => Propagate::No(Reason::Expired),
        Err(ModifyOfferError::UnsubscribeError(_)) => Propagate::Yes,
        Err(ModifyOfferError::UnsubscribedNotRemoved(_)) => Propagate::Yes,
        Err(ModifyOfferError::RemoveError(_)) => Propagate::Yes,
    }
}

/// The outcome of `unsubscribe_offer` on a store, as a `Result`.
pub open spec fn unsubscribe_outcome(s: StoreView, id: SubscriptionId, remover: Option<u64>, now: u64) -> Result<(), ModifyOfferError> {
    match s.unsubscribe_error(id, remover, now) {
        None => Ok(()),
        Some(e) => Err(e),
    }
}

/// Maps the outcome of a local unsubscribe to a forwarding decision.
pub fn propagate_decision(r: &Result<(), ModifyOfferError>) -> (p: Propagate)
    ensures
        p == decision(*r),
{
    match r {
        Ok(()) => Propagate::Yes,
        Err(ModifyOfferError::NotFound(_)) => Propagate::No(Reason::NotFound),
        Err(ModifyOfferError::Unsubscribed(_)) => Propagate::No(Reason::Unsubscribed),
        Err(ModifyOfferError::Expired(_)) => Propagate::No(Reason::Expired),
        Err(ModifyOfferError::UnsubscribeError(_)) => Propagate::Yes,
        Err(ModifyOfferError::UnsubscribedNotRemoved(_)) => Propagate::Yes,
        Err(ModifyOfferError::RemoveError(_)) => Propagate::Yes,
    }
}

/// An unsubscribe event for an id the store never knew is not forwarded
/// (not found); one for an Offer removed by an earlier unsubscribe is not
/// forwarded (already unsubscribed); a storage failure is forwarded.
pub proof fn lemma_unsubscribe_propagation(
    s: StoreView,
    id: SubscriptionId,
    remover: Option<u64>,
    now: u64,
    later_remover: Option<u64>,
    later: u64,
)
    requires
        s.wf(),
    ensures
        !s.knows(id) ==> decision(unsubscribe_outcome(s, id, remover, now)) == Propagate::No(Reason::NotFound),
        unsubscribe_outcome(s, id, remover, now) is Ok ==> decision(
            unsubscribe_outcome(s.unsubscribed_offer(id, remover, now), id, later_remover, later),
        ) == Propagate::No(Reason::Unsubscribed),
        decision(Err(ModifyOfferError::UnsubscribeError(id))) == Propagate::Yes,
        decision(Err(ModifyOfferError::UnsubscribedNotRemoved(id))) == Propagate::Yes,
        decision(Err(ModifyOfferError::RemoveError(id))) == Propagate::Yes,
{
    if unsubscribe_outcome(s, id, remover, now) is Ok {
        let t = s.unsubscribed_offer(id, remover, now);
        let p = s.offer_position(id);
        assert(s.offers[p].id == id);
        assert(t.unsubscribed[s.unsubscribed.len() as int] == id);
        assert(t.unsubscribed.contains(id));
        if t.has_offer(id) {
            let k = choose|k: int| 0 <= k < t.offers.len() && (#[trigger] t.offers[k]).id == id;
            let src = if k < p { k } else { k + 1 };
            assert(t.offers[k] == s.offers[src]);
            if src < p {
                assert(s.offers[src].id != s.offers[p].id);
            } else {
                assert(s.offers[p].id != s.offers[src].id);
            }
        }
    }
}

} // verus!
