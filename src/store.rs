use vstd::prelude::*;
use crate::model::{
    contains_id, new_view, views, Constraint, Demand, Offer, Property, Subscription, SubscriptionId, SubscriptionView,
};

verus! {

/// Why an Offer was not admitted.
#[derive(Clone, Copy, Debug, PartialEq, Eq, Structural)]
pub enum SaveOfferError {
    /// The id does not match the Offer's content.
    InvalidId(SubscriptionId),
    AlreadyExists(SubscriptionId),
    Unsubscribed(SubscriptionId),
    Expired(SubscriptionId),
}

/// Why an Offer could not be unsubscribed.
#[derive(Clone, Copy, Debug, PartialEq, Eq, Structural)]
pub enum ModifyOfferError {
    NotFound(SubscriptionId),
    Unsubscribed(SubscriptionId),
    Expired(SubscriptionId),
    /// The storage layer failed to mark the Offer unsubscribed.
    UnsubscribeError(SubscriptionId),
    /// The Offer was marked unsubscribed but could not be removed.
    UnsubscribedNotRemoved(SubscriptionId),
    /// The storage layer failed to remove the Offer.
    RemoveError(SubscriptionId),
}

/// Why a Demand could not be admitted or removed.
#[derive(Clone, Copy, Debug, PartialEq, Eq, Structural)]
pub enum DemandError {
    AlreadyExists(SubscriptionId),
    NotFound(SubscriptionId),
}

/// Mathematical value of a [`SubscriptionStore`].
pub struct StoreView {
    pub offers: Seq<SubscriptionView>,
    pub demands: Seq<SubscriptionView>,
    pub unsubscribed: Seq<SubscriptionId>,
}

/// `o` belongs to `owner`, or no owner is asked for.
pub open spec fn owned_by(o: SubscriptionView, owner: Option<u64>) -> bool {
    owner is None || o.owner == owner->0
}

pub open spec fn select_owned(s: Seq<SubscriptionView>, owner: Option<u64>) -> Seq<SubscriptionView> {
    s.filter(|o: SubscriptionView| owned_by(o, owner))
}

pub open spec fn select_ids(s: Seq<SubscriptionView>, ids: Seq<SubscriptionId>) -> Seq<SubscriptionView> {
    s.filter(|o: SubscriptionView| ids.contains(o.id))
}

impl StoreView {
    pub open spec fn has_offer(self, id: SubscriptionId) -> bool {
        exists|i: int| 0 <= i < self.offers.len() && (#[trigger] self.offers[i]).id == id
    }

    pub open spec fn offer_position(self, id: SubscriptionId) -> int {
        choose|i: int| 0 <= i < self.offers.len() && (#[trigger] self.offers[i]).id == id
    }

    pub open spec fn has_demand(self, id: SubscriptionId) -> bool {
        exists|i: int| 0 <= i < self.demands.len() && (#[trigger] self.demands[i]).id == id
    }

    pub open spec fn demand_position(self, id: SubscriptionId) -> int {
        choose|i: int| 0 <= i < self.demands.len() && (#[trigger] self.demands[i]).id == id
    }

    /// The id belongs to a stored Offer or to one unsubscribed earlier.
    pub open spec fn knows(self, id: SubscriptionId) -> bool {
        self.has_offer(id) || self.unsubscribed.contains(id)
    }

    /// Ids are unique per table, and no stored Offer is marked unsubscribed.
    pub open spec fn wf(self) -> bool {
        &&& forall|i: int, j: int|
            0 <= i < j < self.offers.len() ==> #[trigger] self.offers[i].id != #[trigger] self.offers[j].id
        &&& forall|i: int, j: int|
            0 <= i < j < self.demands.len() ==> #[trigger] self.demands[i].id != #[trigger] self.demands[j].id
        &&& forall|i: int| 0 <= i < self.offers.len() ==> !self.unsubscribed.contains(#[trigger] self.offers[i].id)
    }

    /// The error with which `save_offer` refuses `o`, if any.
    pub open spec fn save_error(self, o: SubscriptionView, now: u64) -> Option<SaveOfferError> {
        if !o.id_valid() {
            Some(SaveOfferError::InvalidId(o.id))
        } else if self.has_offer(o.id) {
            Some(SaveOfferError::AlreadyExists(o.id))
        } else if self.unsubscribed.contains(o.id) {
            Some(SaveOfferError::Unsubscribed(o.id))
        } else if o.expired_at(now) {
            Some(SaveOfferError::Expired(o.id))
        } else {
            None
        }
    }

    /// The store after `save_offer(o)`.
    pub open spec fn saved(self, o: SubscriptionView, now: u64) -> StoreView {
        if self.save_error(o, now) is None {
            StoreView { offers: self.offers.push(o), ..self }
        } else {
            self
        }
    }

    /// The error with which `unsubscribe_offer` refuses, if any. An Offer of
    /// another owner is not found for `remover`.
    pub open spec fn unsubscribe_error(self, id: SubscriptionId, remover: Option<u64>, now: u64) -> Option<ModifyOfferError> {
        if !self.has_offer(id) {
            if self.unsubscribed.contains(id) {
                Some(ModifyOfferError::Unsubscribed(id))
            } else {
                Some(ModifyOfferError::NotFound(id))
            }
        } else if !owned_by(self.offers[self.offer_position(id)], remover) {
            Some(ModifyOfferError::NotFound(id))
        } else if self.offers[self.offer_position(id)].expired_at(now) {
            Some(ModifyOfferError::Expired(id))
        } else {
            None
        }
    }

    /// The store after `unsubscribe_offer(id)`.
    pub open spec fn unsubscribed_offer(self, id: SubscriptionId, remover: Option<u64>, now: u64) -> StoreView {
        if self.unsubscribe_error(id, remover, now) is None {
            StoreView {
                offers: self.offers.remove(self.offer_position(id)),
                unsubscribed: self.unsubscribed.push(id),
                ..self
            }
        } else {
            self
        }
    }

    /// The store after admitting Demand `d`, if its id is new.
    pub open spec fn demand_added(self, d: SubscriptionView) -> StoreView {
        if self.has_demand(d.id) {
            self
        } else {
            StoreView { demands: self.demands.push(d), ..self }
        }
    }

    /// The ids among `ids` that this store does not know, in their order.
    pub open spec fn unknown_among(self, ids: Seq<SubscriptionId>) -> Seq<SubscriptionId> {
        ids.filter(|id: SubscriptionId| !self.knows(id))
    }

    /// Whether `remove_demand(id, owner)` finds the Demand.
    pub open spec fn demand_removable(self, id: SubscriptionId, owner: u64) -> bool {
        self.has_demand(id) && self.demands[self.demand_position(id)].owner == owner
    }

    pub open spec fn demand_removed(self, id: SubscriptionId, owner: u64) -> StoreView {
        if self.demand_removable(id, owner) {
            StoreView { demands: self.demands.remove(self.demand_position(id)), ..self }
        } else {
            self
        }
    }
}

/// The node's table of known Offers and Demands.
pub struct SubscriptionStore {
    offers: Vec<Offer>,
    demands: Vec<Demand>,
    unsubscribed: Vec<SubscriptionId>,
}

impl View for SubscriptionStore {
    type V = StoreView;

    closed spec fn view(&self) -> StoreView {
        StoreView {
            offers: views(self.offers@),
            demands: views(self.demands@),
            unsubscribed: self.unsubscribed@,
        }
    }
}


impl SubscriptionStore {
    /// An empty store.
    pub fn new() -> (r: SubscriptionStore)
        ensures
            r@.offers.len() == 0,
            r@.demands.len() == 0,
            r@.unsubscribed.len() == 0,
            r@.wf(),
    {
        let r = SubscriptionStore { offers: Vec::new(), demands: Vec::new(), unsubscribed: Vec::new() };
        assert(r@.offers =~= Seq::<SubscriptionView>::empty());
        assert(r@.demands =~= Seq::<SubscriptionView>::empty());
        r
    }

    /// The stored Offers.
    pub fn offers(&self) -> (r: &Vec<Offer>)
        ensures
            views(r@) == self@.offers,
    {
        &self.offers
    }

    /// The stored Demands.
    pub fn demands(&self) -> (r: &Vec<Demand>)
        ensures
            views(r@) == self@.demands,
    {
        &self.demands
    }

    fn find_offer(&self, id: SubscriptionId) -> (r: Option<usize>)
        requires
            self@.wf(),
        ensures
            match r {
                Some(i) => self@.has_offer(id) && i as int == self@.offer_position(id)
                    && i < self@.offers.len(),
                None => !self@.has_offer(id),
            },
    {
        let mut i: usize = 0;
        while i < self.offers.len()
            invariant
                i <= self.offers.len(),
                self@.wf(),
                self@.offers.len() == self.offers.len(),
                forall|k: int| 0 <= k < i ==> self@.offers[k].id != id,
            decreases self.offers.len() - i,
        {
            if self.offers[i].id.value == id.value {
                assert(self@.offers[i as int].id == id);
                let ghost j = self@.offer_position(id);
                assert(self@.offers[j].id == id);
                assert(j == i as int) by {
                    if j < i as int {
                        assert(self@.offers[j].id != self@.offers[i as int].id);
                    } else if j > i as int {
                        assert(self@.offers[i as int].id != self@.offers[j].id);
                    }
                }
                return Some(i);
            }
            i = i + 1;
        }
        assert(!self@.has_offer(id)) by {
            if self@.has_offer(id) {
                let k = choose|k: int| 0 <= k < self@.offers.len() && (#[trigger] self@.offers[k]).id == id;
                assert(self@.offers[k].id != id);
            }
        }
        None
    }

    fn find_demand(&self, id: SubscriptionId) -> (r: Option<usize>)
        requires
            self@.wf(),
        ensures
            match r {
                Some(i) => self@.has_demand(id) && i as int == self@.demand_position(id)
                    && i < self@.demands.len(),
                None => !self@.has_demand(id),
            },
    {
        let mut i: usize = 0;
        while i < self.demands.len()
            invariant
                i <= self.demands.len(),
                self@.wf(),
                self@.demands.len() == self.demands.len(),
                forall|k: int| 0 <= k < i ==> self@.demands[k].id != id,
            decreases self.demands.len() - i,
        {
            if self.demands[i].id.value == id.value {
                assert(self@.demands[i as int].id == id);
                let ghost j = self@.demand_position(id);
                assert(self@.demands[j].id == id);
                assert(j == i as int) by {
                    if j < i as int {
                        assert(self@.demands[j].id != self@.demands[i as int].id);
                    } else if j > i as int {
                        assert(self@.demands[i as int].id != self@.demands[j].id);
                    }
                }
                return Some(i);
            }
            i = i + 1;
        }
        assert(!self@.has_demand(id)) by {
            if self@.has_demand(id) {
                let k = choose|k: int| 0 <= k < self@.demands.len() && (#[trigger] self@.demands[k]).id == id;
                assert(self@.demands[k].id != id);
            }
        }
        None
    }

    /// Whether the id belongs to a stored Offer or to one unsubscribed earlier.
    pub fn knows(&self, id: SubscriptionId) -> (r: bool)
        requires
            self@.wf(),
        ensures
            r == self@.knows(id),
    {
        self.find_offer(id).is_some() || contains_id(&self.unsubscribed, id)
    }

    /// Admits an Offer, typically one received from a peer.
    pub fn save_offer(&mut self, offer: Offer, now: u64) -> (r: Result<Offer, SaveOfferError>)
        requires
            old(self)@.wf(),
        ensures
            final(self)@.wf(),
            final(self)@ == old(self)@.saved(offer@, now),
            match old(self)@.save_error(offer@, now) {
                None => r is Ok && r->Ok_0@ == offer@,
                Some(e) => r == Err::<Offer, SaveOfferError>(e),
            },
    {
        if !offer.has_valid_id() {
            return Err(SaveOfferError::InvalidId(offer.id));
        }
        if self.find_offer(offer.id).is_some() {
            return Err(SaveOfferError::AlreadyExists(offer.id));
        }
        if contains_id(&self.unsubscribed, offer.id) {
            return Err(SaveOfferError::Unsubscribed(offer.id));
        }
        if offer.is_expired(now) {
            return Err(SaveOfferError::Expired(offer.id));
        }
        let ghost pre = self@;
        self.offers.push(offer.duplicate());
        assert(self@.offers =~= pre.offers.push(offer@));
        assert(self@ =~= pre.saved(offer@, now));
        Ok(offer)
    }

    /// Creates an Offer of `owner` with an id derived from its content, and
    /// admits it.
    pub fn create_offer(
        &mut self,
        owner: u64,
        properties: Vec<Property>,
        constraints: Vec<Constraint>,
        now: u64,
        expiration_ts: u64,
    ) -> (r: Result<Offer, SaveOfferError>)
        requires
            old(self)@.wf(),
        ensures
            ({
                let v = new_view(owner, properties@, constraints@, now, expiration_ts);
                &&& final(self)@.wf()
                &&& final(self)@ == old(self)@.saved(v, now)
                &&& match old(self)@.save_error(v, now) {
                    None => r is Ok && r->Ok_0@ == v,
                    Some(e) => r == Err::<Offer, SaveOfferError>(e),
                }
            }),
    {
        let offer = Subscription::new(owner, properties, constraints, now, expiration_ts);
        self.save_offer(offer, now)
    }

    /// Marks the Offer unsubscribed and removes it. With `remover` given, only
    /// that owner's Offer is found.
    pub fn unsubscribe_offer(&mut self, id: SubscriptionId, remover: Option<u64>, now: u64) -> (r: Result<(), ModifyOfferError>)
        requires
            old(self)@.wf(),
        ensures
            final(self)@.wf(),
            final(self)@ == old(self)@.unsubscribed_offer(id, remover, now),
            match old(self)@.unsubscribe_error(id, remover, now) {
                None => r == Ok::<(), ModifyOfferError>(()),
                Some(e) => r == Err::<(), ModifyOfferError>(e),
            },
    {
        match self.find_offer(id) {
            None => {
                if contains_id(&self.unsubscribed, id) {
                    Err(ModifyOfferError::Unsubscribed(id))
                } else {
                    Err(ModifyOfferError::NotFound(id))
                }
            },
            Some(i) => {
                match remover {
                    Some(who) => {
                        if who != self.offers[i].owner {
                            return Err(ModifyOfferError::NotFound(id));
                        }
                    },
                    None => {},
                }
                if self.offers[i].is_expired(now) {
                    return Err(ModifyOfferError::Expired(id));
                }
                let ghost pre = self@;
                self.offers.remove(i);
                self.unsubscribed.push(id);
                assert(self@.offers =~= pre.offers.remove(i as int));
                assert(self@ =~= pre.unsubscribed_offer(id, remover, now));
                assert forall|k: int| 0 <= k < self@.offers.len() implies !self@.unsubscribed.contains(
                    #[trigger] self@.offers[k].id,
                ) by {
                    let src = if k < i { k } else { k + 1 };
                    assert(self@.offers[k] == pre.offers[src]);
                    assert(self@.unsubscribed[pre.unsubscribed.len() as int] == id);
                    if self@.unsubscribed.contains(self@.offers[k].id) {
                        let u = choose|u: int| 0 <= u < self@.unsubscribed.len() && self@.unsubscribed[u] == self@.offers[k].id;
                        if u < pre.unsubscribed.len() {
                            assert(pre.unsubscribed[u] == pre.offers[src].id);
                        }
                    }
                }
                assert forall|a: int, b: int| 0 <= a < b < self@.offers.len() implies #[trigger] self@.offers[a].id != #[trigger] self@.offers[b].id by {
                    let sa = if a < i { a } else { a + 1 };
                    let sb = if b < i { b } else { b + 1 };
                    assert(self@.offers[a] == pre.offers[sa]);
                    assert(self@.offers[b] == pre.offers[sb]);
                }
                Ok(())
            },
        }
    }

    /// The ids among `ids` that this store does not know yet.
    pub fn filter_existing(&self, ids: &Vec<SubscriptionId>) -> (r: Vec<SubscriptionId>)
        requires
            self@.wf(),
        ensures
            r@ == self@.unknown_among(ids@),
    {
        let mut r: Vec<SubscriptionId> = Vec::new();
        let mut i: usize = 0;
        proof {
            reveal(Seq::filter);
            assert(ids@.take(0) =~= Seq::<SubscriptionId>::empty());
        }
        while i < ids.len()
            invariant
                i <= ids.len(),
                self@.wf(),
                r@ == self@.unknown_among(ids@.take(i as int)),
            decreases ids.len() - i,
        {
            proof {
                reveal(Seq::filter);
                assert(ids@.take(i + 1).drop_last() =~= ids@.take(i as int));
            }
            if !self.knows(ids[i]) {
                r.push(ids[i]);
            }
            i = i + 1;
        }
        assert(ids@.take(ids.len() as int) =~= ids@);
        r
    }

    /// Copies of the stored Offers of `owner`, or of all owners.
    pub fn get_offers(&self, owner: Option<u64>) -> (r: Vec<Offer>)
        ensures
            views(r@) == select_owned(self@.offers, owner),
    {
        let mut r: Vec<Offer> = Vec::new();
        let mut i: usize = 0;
        proof {
            reveal(Seq::filter);
            assert(self@.offers.take(0) =~= Seq::<SubscriptionView>::empty());
            assert(views(r@) =~= Seq::<SubscriptionView>::empty());
        }
        while i < self.offers.len()
            invariant
                i <= self.offers.len(),
                self@.offers.len() == self.offers.len(),
                views(r@) == select_owned(self@.offers.take(i as int), owner),
            decreases self.offers.len() - i,
        {
            proof {
                reveal(Seq::filter);
                assert(self@.offers.take(i + 1).drop_last() =~= self@.offers.take(i as int));
            }
            let keep = match owner {
                Some(who) => self.offers[i].owner == who,
                None => true,
            };
            let ghost pre = r@;
            if keep {
                r.push(self.offers[i].duplicate());
                assert(views(r@) =~= views(pre).push(self@.offers[i as int]));
            }
            i = i + 1;
        }
        assert(self@.offers.take(self.offers.len() as int) =~= self@.offers);
        r
    }

    /// Copies of the stored Offers whose ids are among `ids`.
    pub fn get_offers_batch(&self, ids: &Vec<SubscriptionId>) -> (r: Vec<Offer>)
        ensures
            views(r@) == select_ids(self@.offers, ids@),
    {
        let mut r: Vec<Offer> = Vec::new();
        let mut i: usize = 0;
        proof {
            reveal(Seq::filter);
            assert(self@.offers.take(0) =~= Seq::<SubscriptionView>::empty());
            assert(views(r@) =~= Seq::<SubscriptionView>::empty());
        }
        while i < self.offers.len()
            invariant
                i <= self.offers.len(),
                self@.offers.len() == self.offers.len(),
                views(r@) == select_ids(self@.offers.take(i as int), ids@),
            decreases self.offers.len() - i,
        {
            proof {
                reveal(Seq::filter);
                assert(self@.offers.take(i + 1).drop_last() =~= self@.offers.take(i as int));
            }
            let ghost pre = r@;
            if contains_id(ids, self.offers[i].id) {
                r.push(self.offers[i].duplicate());
                assert(views(r@) =~= views(pre).push(self@.offers[i as int]));
            }
            i = i + 1;
        }
        assert(self@.offers.take(self.offers.len() as int) =~= self@.offers);
        r
    }

    /// Creates a Demand of `owner` with an id derived from its content, and
    /// admits it unless a Demand with that id is stored.
    pub fn create_demand(
        &mut self,
        owner: u64,
        properties: Vec<Property>,
        constraints: Vec<Constraint>,
        now: u64,
        expiration_ts: u64,
    ) -> (r: Result<Demand, DemandError>)
        requires
            old(self)@.wf(),
        ensures
            ({
                let v = new_view(owner, properties@, constraints@, now, expiration_ts);
                &&& final(self)@.wf()
                &&& final(self)@ == old(self)@.demand_added(v)
                &&& if old(self)@.has_demand(v.id) {
                    r == Err::<Demand, DemandError>(DemandError::AlreadyExists(v.id))
                } else {
                    r is Ok && r->Ok_0@ == v
                }
            }),
    {
        let demand = Subscription::new(owner, properties, constraints, now, expiration_ts);
        if self.find_demand(demand.id).is_some() {
            return Err(DemandError::AlreadyExists(demand.id));
        }
        let ghost pre = self@;
        self.demands.push(demand.duplicate());
        assert(self@.demands =~= pre.demands.push(demand@));
        assert(self@ =~= pre.demand_added(demand@));
        Ok(demand)
    }

    /// Removes the Demand `id` of `owner`.
    pub fn remove_demand(&mut self, id: SubscriptionId, owner: u64) -> (r: Result<(), DemandError>)
        requires
            old(self)@.wf(),
        ensures
            final(self)@.wf(),
            final(self)@ == old(self)@.demand_removed(id, owner),
            if old(self)@.demand_removable(id, owner) {
                r == Ok::<(), DemandError>(())
            } else {
                r == Err::<(), DemandError>(DemandError::NotFound(id))
            },
    {
        match self.find_demand(id) {
            None => Err(DemandError::NotFound(id)),
            Some(i) => {
                if self.demands[i].owner != owner {
                    return Err(DemandError::NotFound(id));
                }
                let ghost pre = self@;
                self.demands.remove(i);
                assert(self@.demands =~= pre.demands.remove(i as int));
                assert(self@ =~= pre.demand_removed(id, owner));
                assert forall|a: int, b: int| 0 <= a < b < self@.demands.len() implies #[trigger] self@.demands[a].id != #[trigger] self@.demands[b].id by {
                    let sa = if a < i { a } else { a + 1 };
                    let sb = if b < i { b } else { b + 1 };
                    assert(self@.demands[a] == pre.demands[sa]);
                    assert(self@.demands[b] == pre.demands[sb]);
                }
                Ok(())
            },
        }
    }
}

/// The set of ids a store knows.
pub open spec fn known_ids(s: StoreView) -> Set<SubscriptionId> {
    Set::new(|id: SubscriptionId| s.knows(id))
}

/// Of the ids `announced` by a peer, the store reports missing exactly those
/// that lie outside the set of ids it knows.
pub proof fn lemma_dedup(s: StoreView, announced: Seq<SubscriptionId>)
    ensures
        s.unknown_among(announced).to_set() == announced.to_set().difference(known_ids(s)),
{
    broadcast use vstd::seq_lib::group_filter_ensures, Seq::lemma_filter_contains_rev;

    let r = s.unknown_among(announced);
    assert forall|x: SubscriptionId| #[trigger] r.to_set().contains(x) <==> announced.to_set().difference(known_ids(s)).contains(x) by {
        if r.contains(x) {
            let i = choose|i: int| 0 <= i < r.len() && r[i] == x;
            assert(!s.knows(r[i]));
        }
        if announced.contains(x) && !s.knows(x) {
            let i = choose|i: int| 0 <= i < announced.len() && announced[i] == x;
            assert(r.contains(announced[i]));
        }
    }
    assert(r.to_set() =~= announced.to_set().difference(known_ids(s)));
}

/// Admitting an Offer keeps the store well formed.
pub proof fn lemma_saved_wf(s: StoreView, o: SubscriptionView, now: u64)
    requires
        s.wf(),
    ensures
        s.saved(o, now).wf(),
{
    if s.save_error(o, now) is None {
        let t = s.saved(o, now);
        assert forall|i: int, j: int| 0 <= i < j < t.offers.len() implies #[trigger] t.offers[i].id != #[trigger] t.offers[j].id by {
            if j == s.offers.len() {
                assert(t.offers[i] == s.offers[i]);
            }
        }
        assert forall|i: int| 0 <= i < t.offers.len() implies !t.unsubscribed.contains(#[trigger] t.offers[i].id) by {
            if i < s.offers.len() {
                assert(t.offers[i] == s.offers[i]);
            }
        }
    }
}

/// Admitting the same Offer body a second time is refused and leaves the
/// store as the first admission left it, so its id is listed at most once.
pub proof fn lemma_admission_idempotent(s: StoreView, o: SubscriptionView, now: u64)
    requires
        s.wf(),
    ensures
        s.saved(o, now).save_error(o, now) is Some,
        s.saved(o, now).saved(o, now) == s.saved(o, now),
        s.saved(o, now).wf(),
        forall|i: int, j: int|
            0 <= i < s.saved(o, now).offers.len() && 0 <= j < s.saved(o, now).offers.len()
                && s.saved(o, now).offers[i].id == o.id && s.saved(o, now).offers[j].id == o.id ==> i == j,
{
    lemma_saved_wf(s, o, now);
    let t = s.saved(o, now);
    if s.save_error(o, now) is None {
        let k = s.offers.len() as int;
        assert(t.offers[k].id == o.id);
        assert(t.has_offer(o.id));
    }
    assert forall|i: int, j: int|
        0 <= i < t.offers.len() && 0 <= j < t.offers.len() && t.offers[i].id == o.id && t.offers[j].id == o.id implies i == j by {
        if i < j {
            assert(t.offers[i].id != t.offers[j].id);
        } else if j < i {
            assert(t.offers[j].id != t.offers[i].id);
        }
    }
}

} // verus!
