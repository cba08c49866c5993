use vstd::prelude::*;
use crate::discovery::{
    decision, propagate_decision, unsubscribe_outcome, GetOffers, OfferIdsReceived,
    OfferUnsubscribed, OffersReceived, Propagate,
};
use crate::model::{
    constraints_valid, constraints_well_formed, new_view, views, Constraint, Demand, Offer,
    Property, SubscriptionId, SubscriptionView,
};
use crate::resolver::{proposals_for_demand, proposals_for_offer, Resolver};
use crate::store::{
    select_ids, select_owned, DemandError, ModifyOfferError, SaveOfferError, StoreView,
    SubscriptionStore,
};

verus! {

/// Settings of the anti-entropy broadcaster.
#[derive(Clone, Copy, Debug, PartialEq, Eq, Structural)]
pub struct DiscoveryConfig {
    /// Mean pause between two broadcast rounds, in milliseconds.
    pub mean_random_broadcast_interval_ms: u64,
    /// How many Offer ids one round aims to send.
    pub num_broadcasted_offers: u32,
}

/// Why a local subscribe or unsubscribe request failed.
#[derive(Clone, Copy, Debug, PartialEq, Eq, Structural)]
pub enum MatcherError {
    /// A constraint describes an empty value range.
    InvalidConstraints,
    SaveOffer(SaveOfferError),
    ModifyOffer(ModifyOfferError),
    Demand(DemandError),
}

/// The Offers of `offers` owned by each identity of `ids` in turn.
pub open spec fn our_offers(offers: Seq<SubscriptionView>, ids: Seq<u64>) -> Seq<SubscriptionView>
    decreases ids.len(),
{
    if ids.len() == 0 {
        Seq::empty()
    } else {
        our_offers(offers, ids.drop_last()) + select_owned(offers, Some(ids.last()))
    }
}

/// The store after admitting each of `os` in order.
pub open spec fn admit_all(s: StoreView, os: Seq<SubscriptionView>, now: u64) -> StoreView
    decreases os.len(),
{
    if os.len() == 0 {
        s
    } else {
        admit_all(s, os.drop_last(), now).saved(os.last(), now)
    }
}

/// The ids of those of `os` that were admitted, in order.
pub open spec fn admitted_ids(s: StoreView, os: Seq<SubscriptionView>, now: u64) -> Seq<SubscriptionId>
    decreases os.len(),
{
    if os.len() == 0 {
        Seq::empty()
    } else if admit_all(s, os.drop_last(), now).save_error(os.last(), now) is None {
        admitted_ids(s, os.drop_last(), now).push(os.last().id)
    } else {
        admitted_ids(s, os.drop_last(), now)
    }
}

/// Proposals produced while admitting each of `os` in order.
pub open spec fn admission_proposals(s: StoreView, os: Seq<SubscriptionView>, now: u64) -> Seq<(SubscriptionView, SubscriptionView)>
    decreases os.len(),
{
    if os.len() == 0 {
        Seq::empty()
    } else if admit_all(s, os.drop_last(), now).save_error(os.last(), now) is None {
        admission_proposals(s, os.drop_last(), now) + proposals_for_offer(os.last(), s.demands)
    } else {
        admission_proposals(s, os.drop_last(), now)
    }
}

/// Keeps the node's Offers and Demands and matches them with each other.
pub struct Matcher {
    pub store: SubscriptionStore,
    pub resolver: Resolver,
    pub identities: Vec<u64>,
    pub config: DiscoveryConfig,
}

impl Matcher {
    /// The identities this node manages.
    pub open spec fn identity_list(&self) -> Seq<u64> {
        self.identities@
    }

    pub open spec fn config_spec(&self) -> DiscoveryConfig {
        self.config
    }

    /// The store is well formed.
    pub open spec fn wf(&self) -> bool {
        self.store@.wf()
    }

    pub fn new(store: SubscriptionStore, identities: Vec<u64>, config: DiscoveryConfig) -> (r: Matcher)
        requires
            store@.wf(),
        ensures
            r.wf(),
            r.store@ == store@,
            r.resolver@.len() == 0,
            r.identity_list() == identities@,
            r.config_spec() == config,
    {
        Matcher { store, resolver: Resolver::new(), identities, config }
    }

    pub fn config(&self) -> (r: DiscoveryConfig)
        ensures
            r == self.config_spec(),
    {
        self.config
    }

    /// Publishes an Offer of identity `id` and matches it against the stored
    /// Demands. Broadcasting the returned Offer's id is left to the caller.
    pub fn subscribe_offer(
        &mut self,
        id: u64,
        properties: Vec<Property>,
        constraints: Vec<Constraint>,
        now: u64,
        expiration_ts: u64,
    ) -> (r: Result<Offer, MatcherError>)
        requires
            old(self).wf(),
        ensures
            final(self).wf(),
            final(self).identity_list() == old(self).identity_list(),
            final(self).config_spec() == old(self).config_spec(),
            ({
                let v = new_view(id, properties@, constraints@, now, expiration_ts);
                if !constraints_well_formed(constraints@) {
                    &&& r == Err::<Offer, MatcherError>(MatcherError::InvalidConstraints)
                    &&& final(self).store@ == old(self).store@
                    &&& final(self).resolver@ == old(self).resolver@
                } else {
                    match old(self).store@.save_error(v, now) {
                        None => {
                            &&& r is Ok
                            &&& r->Ok_0@ == v
                            &&& final(self).store@ == old(self).store@.saved(v, now)
                            &&& final(self).resolver@ == old(self).resolver@ + proposals_for_offer(v, old(self).store@.demands)
                        },
                        Some(e) => {
                            &&& r == Err::<Offer, MatcherError>(MatcherError::SaveOffer(e))
                            &&& final(self).store@ == old(self).store@
                            &&& final(self).resolver@ == old(self).resolver@
                        },
                    }
                }
            }),
    {
        if !constraints_valid(&constraints) {
            return Err(MatcherError::InvalidConstraints);
        }
        match self.store.create_offer(id, properties, constraints, now, expiration_ts) {
            Ok(offer) => {
                self.resolver.receive_offer(&self.store, &offer);
                Ok(offer)
            },
            Err(e) => Err(MatcherError::SaveOffer(e)),
        }
    }

    /// Withdraws Offer `offer_id` of identity `id`. Broadcasting the
    /// unsubscribe on success is left to the caller.
    pub fn unsubscribe_offer(&mut self, offer_id: SubscriptionId, id: u64, now: u64) -> (r: Result<(), MatcherError>)
        requires
            old(self).wf(),
        ensures
            final(self).wf(),
            final(self).identity_list() == old(self).identity_list(),
            final(self).config_spec() == old(self).config_spec(),
            final(self).resolver@ == old(self).resolver@,
            final(self).store@ == old(self).store@.unsubscribed_offer(offer_id, Some(id), now),
            match old(self).store@.unsubscribe_error(offer_id, Some(id), now) {
                None => r == Ok::<(), MatcherError>(()),
                Some(e) => r == Err::<(), MatcherError>(MatcherError::ModifyOffer(e)),
            },
    {
        match self.store.unsubscribe_offer(offer_id, Some(id), now) {
            Ok(()) => Ok(()),
            Err(e) => Err(MatcherError::ModifyOffer(e)),
        }
    }

    /// Publishes a Demand of identity `id` and matches it against the stored
    /// Offers.
    pub fn subscribe_demand(
        &mut self,
        id: u64,
        properties: Vec<Property>,
        constraints: Vec<Constraint>,
        now: u64,
        expiration_ts: u64,
    ) -> (r: Result<Demand, MatcherError>)
        requires
            old(self).wf(),
        ensures
            final(self).wf(),
            final(self).identity_list() == old(self).identity_list(),
            final(self).config_spec() == old(self).config_spec(),
            ({
                let v = new_view(id, properties@, constraints@, now, expiration_ts);
                if !constraints_well_formed(constraints@) {
                    &&& r == Err::<Demand, MatcherError>(MatcherError::InvalidConstraints)
                    &&& final(self).store@ == old(self).store@
                    &&& final(self).resolver@ == old(self).resolver@
                } else if old(self).store@.has_demand(v.id) {
                    &&& r == Err::<Demand, MatcherError>(MatcherError::Demand(DemandError::AlreadyExists(v.id)))
                    &&& final(self).store@ == old(self).store@
                    &&& final(self).resolver@ == old(self).resolver@
                } else {
                    &&& r is Ok
                    &&& r->Ok_0@ == v
                    &&& final(self).store@ == old(self).store@.demand_added(v)
                    &&& final(self).resolver@ == old(self).resolver@ + proposals_for_demand(v, old(self).store@.offers)
                }
            }),
    {
        if !constraints_valid(&constraints) {
            return Err(MatcherError::InvalidConstraints);
        }
        match self.store.create_demand(id, properties, constraints, now, expiration_ts) {
            Ok(demand) => {
                self.resolver.receive_demand(&self.store, &demand);
                Ok(demand)
            },
            Err(e) => Err(MatcherError::Demand(e)),
        }
    }

    /// Withdraws Demand `demand_id` of identity `id`.
    pub fn unsubscribe_demand(&mut self, demand_id: SubscriptionId, id: u64) -> (r: Result<(), MatcherError>)
        requires
            old(self).wf(),
        ensures
            final(self).wf(),
            final(self).identity_list() == old(self).identity_list(),
            final(self).config_spec() == old(self).config_spec(),
            final(self).resolver@ == old(self).resolver@,
            final(self).store@ == old(self).store@.demand_removed(demand_id, id),
            if old(self).store@.demand_removable(demand_id, id) {
                r == Ok::<(), MatcherError>(())
            } else {
                r == Err::<(), MatcherError>(MatcherError::Demand(DemandError::NotFound(demand_id)))
            },
    {
        match self.store.remove_demand(demand_id, id) {
            Ok(()) => Ok(()),
            Err(e) => Err(MatcherError::Demand(e)),
        }
    }

    /// The Offers of every identity this node manages, identity by identity.
    pub fn list_our_offers(&self) -> (r: Vec<Offer>)
        ensures
            views(r@) == our_offers(self.store@.offers, self.identity_list()),
    {
        let mut r: Vec<Offer> = Vec::new();
        let mut i: usize = 0;
        assert(self.identities@.take(0) =~= Seq::<u64>::empty());
        assert(views(r@) =~= Seq::<SubscriptionView>::empty());
        while i < self.identities.len()
            invariant
                i <= self.identities.len(),
                views(r@) == our_offers(self.store@.offers, self.identities@.take(i as int)),
            decreases self.identities.len() - i,
        {
            let mut mine = self.store.get_offers(Some(self.identities[i]));
            let ghost pre = r@;
            let ghost got = mine@;
            r.append(&mut mine);
            assert(self.identities@.take(i + 1).drop_last() =~= self.identities@.take(i as int));
            assert(views(r@) =~= views(pre) + views(got));
            i = i + 1;
        }
        assert(self.identities@.take(self.identities.len() as int) =~= self.identities@);
        r
    }
}

/// Answers a peer's announcement with the ids this node lacks.
pub fn on_offer_ids_received(matcher: &Matcher, msg: &OfferIdsReceived) -> (r: Vec<SubscriptionId>)
    requires
        matcher.wf(),
    ensures
        r@ == matcher.store@.unknown_among(msg.offers@),
{
    matcher.store.filter_existing(&msg.offers)
}

/// Admits each pushed Offer in turn, skipping those the store refuses,
/// matches every admitted one, and returns the admitted ids.
pub fn on_offers_received(matcher: &mut Matcher, msg: &OffersReceived, now: u64) -> (r: Vec<SubscriptionId>)
    requires
        old(matcher).wf(),
    ensures
        final(matcher).wf(),
        final(matcher).identity_list() == old(matcher).identity_list(),
        final(matcher).config_spec() == old(matcher).config_spec(),
        final(matcher).store@ == admit_all(old(matcher).store@, views(msg.offers@), now),
        final(matcher).resolver@ == old(matcher).resolver@ + admission_proposals(
            old(matcher).store@,
            views(msg.offers@),
            now,
        ),
        r@ == admitted_ids(old(matcher).store@, views(msg.offers@), now),
{
    let ghost s0 = matcher.store@;
    let ghost q0 = matcher.resolver@;
    let ghost os = views(msg.offers@);
    let mut added: Vec<SubscriptionId> = Vec::new();
    let mut i: usize = 0;
    assert(os.take(0) =~= Seq::<SubscriptionView>::empty());
    assert(matcher.resolver@ =~= q0 + Seq::<(SubscriptionView, SubscriptionView)>::empty());
    while i < msg.offers.len()
        invariant
            i <= msg.offers.len(),
            os == views(msg.offers@),
            matcher.wf(),
            matcher.identity_list() == old(matcher).identity_list(),
            matcher.config_spec() == old(matcher).config_spec(),
            matcher.store@ == admit_all(s0, os.take(i as int), now),
            matcher.store@.demands == s0.demands,
            matcher.resolver@ == q0 + admission_proposals(s0, os.take(i as int), now),
            added@ == admitted_ids(s0, os.take(i as int), now),
        decreases msg.offers.len() - i,
    {
        assert(os.take(i + 1).drop_last() =~= os.take(i as int));
        assert(os.take(i + 1).last() == os[i as int]);
        let offer = msg.offers[i].duplicate();
        match matcher.store.save_offer(offer, now) {
            Ok(saved) => {
                matcher.resolver.receive_offer(&matcher.store, &saved);
                added.push(saved.id);
            },
            Err(_) => {},
        }
        i = i + 1;
    }
    assert(os.take(msg.offers.len() as int) =~= os);
    added
}

/// Answers a peer's request with the bodies of the asked Offers that this
/// node has.
pub fn on_get_offers(matcher: &Matcher, msg: &GetOffers) -> (r: Vec<Offer>)
    ensures
        views(r@) == select_ids(matcher.store@.offers, msg.offers@),
{
    matcher.store.get_offers_batch(&msg.offers)
}

/// Applies a peer's unsubscribe locally and decides whether to forward it.
/// `caller` is the peer's identity, when it could be read.
pub fn on_offer_unsubscribed(matcher: &mut Matcher, caller: Option<u64>, msg: &OfferUnsubscribed, now: u64) -> (r: Propagate)
    requires
        old(matcher).wf(),
    ensures
        final(matcher).wf(),
        final(matcher).identity_list() == old(matcher).identity_list(),
        final(matcher).config_spec() == old(matcher).config_spec(),
        final(matcher).resolver@ == old(matcher).resolver@,
        final(matcher).store@ == old(matcher).store@.unsubscribed_offer(msg.offer_id, caller, now),
        r == decision(unsubscribe_outcome(old(matcher).store@, msg.offer_id, caller, now)),
{
    let outcome = matcher.store.unsubscribe_offer(msg.offer_id, caller, now);
    propagate_decision(&outcome)
}

} // verus!
