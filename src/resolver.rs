use vstd::prelude::*;
use crate::model::{compatible, is_compatible, Demand, Offer, SubscriptionView};
use crate::store::SubscriptionStore;

verus! {

/// An Offer and a Demand found compatible with each other.
#[derive(Debug)]
pub struct RawProposal {
    pub offer: Offer,
    pub demand: Demand,
}

impl View for RawProposal {
    type V = (SubscriptionView, SubscriptionView);

    open spec fn view(&self) -> (SubscriptionView, SubscriptionView) {
        (self.offer@, self.demand@)
    }
}

pub open spec fn proposal_views(s: Seq<RawProposal>) -> Seq<(SubscriptionView, SubscriptionView)> {
    s.map_values(|p: RawProposal| p@)
}

/// The Demands of `demands` that accept Offer `o` and that `o` accepts.
pub open spec fn matching_demands(o: SubscriptionView, demands: Seq<SubscriptionView>) -> Seq<SubscriptionView> {
    demands.filter(|d: SubscriptionView| compatible(o, d))
}

/// The Offers of `offers` compatible with Demand `d`.
pub open spec fn matching_offers(d: SubscriptionView, offers: Seq<SubscriptionView>) -> Seq<SubscriptionView> {
    offers.filter(|o: SubscriptionView| compatible(o, d))
}

/// Proposals that a new Offer `o` yields against `demands`, in their order.
pub open spec fn proposals_for_offer(o: SubscriptionView, demands: Seq<SubscriptionView>) -> Seq<(SubscriptionView, SubscriptionView)> {
    matching_demands(o, demands).map_values(|d: SubscriptionView| (o, d))
}

/// Proposals that a new Demand `d` yields against `offers`, in their order.
pub open spec fn proposals_for_demand(d: SubscriptionView, offers: Seq<SubscriptionView>) -> Seq<(SubscriptionView, SubscriptionView)> {
    matching_offers(d, offers).map_values(|o: SubscriptionView| (o, d))
}

/// Matches newly admitted subscriptions against the opposite table and
/// queues the resulting proposals.
pub struct Resolver {
    proposals: Vec<RawProposal>,
}

impl View for Resolver {
    type V = Seq<(SubscriptionView, SubscriptionView)>;

    closed spec fn view(&self) -> Seq<(SubscriptionView, SubscriptionView)> {
        proposal_views(self.proposals@)
    }
}

impl Resolver {
    /// A resolver with an empty queue.
    pub fn new() -> (r: Resolver)
        ensures
            r@.len() == 0,
    {
        Resolver { proposals: Vec::new() }
    }

    /// Number of queued proposals.
    pub fn pending(&self) -> (r: usize)
        ensures
            r == self@.len(),
    {
        self.proposals.len()
    }

    /// Queues a proposal for each stored Demand compatible with `offer`.
    pub fn receive_offer(&mut self, store: &SubscriptionStore, offer: &Offer)
        ensures
            final(self)@ == old(self)@ + proposals_for_offer(offer@, store@.demands),
    {
        let demands = store.demands();
        let ghost ds = store@.demands;
        let mut i: usize = 0;
        proof {
            reveal(Seq::filter);
            assert(ds.take(0) =~= Seq::<SubscriptionView>::empty());
            assert(proposals_for_offer(offer@, ds.take(0)) =~= Seq::empty());
            assert(self@ =~= old(self)@ + proposals_for_offer(offer@, ds.take(0)));
        }
        while i < demands.len()
            invariant
                i <= demands.len(),
                ds == crate::model::views(demands@),
                self@ == old(self)@ + proposals_for_offer(offer@, ds.take(i as int)),
            decreases demands.len() - i,
        {
            proof {
                reveal(Seq::filter);
                assert(ds.take(i + 1).drop_last() =~= ds.take(i as int));
            }
            let ghost pre = self@;
            if is_compatible(offer, &demands[i]) {
                self.proposals.push(RawProposal { offer: offer.duplicate(), demand: demands[i].duplicate() });
                assert(matching_demands(offer@, ds.take(i + 1)) == matching_demands(offer@, ds.take(i as int)).push(ds[i as int]));
                assert(proposals_for_offer(offer@, ds.take(i + 1)) =~= proposals_for_offer(offer@, ds.take(i as int)).push((offer@, ds[i as int])));
                assert(self@ =~= pre.push((offer@, ds[i as int])));
            } else {
                assert(matching_demands(offer@, ds.take(i + 1)) == matching_demands(offer@, ds.take(i as int)));
            }
            i = i + 1;
            assert(self@ =~= old(self)@ + proposals_for_offer(offer@, ds.take(i as int)));
        }
        assert(ds.take(demands.len() as int) =~= ds);
    }

    /// Queues a proposal for each stored Offer compatible with `demand`.
    pub fn receive_demand(&mut self, store: &SubscriptionStore, demand: &Demand)
        ensures
            final(self)@ == old(self)@ + proposals_for_demand(demand@, store@.offers),
    {
        let offers = store.offers();
        let ghost os = store@.offers;
        let mut i: usize = 0;
        proof {
            reveal(Seq::filter);
            assert(os.take(0) =~= Seq::<SubscriptionView>::empty());
            assert(proposals_for_demand(demand@, os.take(0)) =~= Seq::empty());
            assert(self@ =~= old(self)@ + proposals_for_demand(demand@, os.take(0)));
        }
        while i < offers.len()
            invariant
                i <= offers.len(),
                os == crate::model::views(offers@),
                self@ == old(self)@ + proposals_for_demand(demand@, os.take(i as int)),
            decreases offers.len() - i,
        {
            proof {
                reveal(Seq::filter);
                assert(os.take(i + 1).drop_last() =~= os.take(i as int));
            }
            let ghost pre = self@;
            if is_compatible(&offers[i], demand) {
                self.proposals.push(RawProposal { offer: offers[i].duplicate(), demand: demand.duplicate() });
                assert(matching_offers(demand@, os.take(i + 1)) == matching_offers(demand@, os.take(i as int)).push(os[i as int]));
                assert(proposals_for_demand(demand@, os.take(i + 1)) =~= proposals_for_demand(demand@, os.take(i as int)).push((os[i as int], demand@)));
                assert(self@ =~= pre.push((os[i as int], demand@)));
            } else {
                assert(matching_offers(demand@, os.take(i + 1)) == matching_offers(demand@, os.take(i as int)));
            }
            i = i + 1;
            assert(self@ =~= old(self)@ + proposals_for_demand(demand@, os.take(i as int)));
        }
        assert(os.take(offers.len() as int) =~= os);
    }

    /// Hands out the queued proposals, oldest first, and empties the queue.
    pub fn take_proposals(&mut self) -> (r: Vec<RawProposal>)
        ensures
            proposal_views(r@) == old(self)@,
            final(self)@.len() == 0,
    {
        let mut out: Vec<RawProposal> = Vec::new();
        std::mem::swap(&mut out, &mut self.proposals);
        out
    }
}

/// A new Offer `o` and a stored Demand `d` yield a proposal exactly when each
/// one's constraints are met by the other's properties; so does a new Demand
/// `d` and a stored Offer `o`.
pub proof fn lemma_symmetric_matching(
    o: SubscriptionView,
    d: SubscriptionView,
    offers: Seq<SubscriptionView>,
    demands: Seq<SubscriptionView>,
)
    ensures
        demands.contains(d) ==> (proposals_for_offer(o, demands).contains((o, d)) <==> compatible(o, d)),
        offers.contains(o) ==> (proposals_for_demand(d, offers).contains((o, d)) <==> compatible(o, d)),
{
    broadcast use vstd::seq_lib::group_filter_ensures;

    let md = matching_demands(o, demands);
    let pd = proposals_for_offer(o, demands);
    if demands.contains(d) {
        if compatible(o, d) {
            let i = choose|i: int| 0 <= i < demands.len() && demands[i] == d;
            assert(md.contains(demands[i]));
            let k = choose|k: int| 0 <= k < md.len() && md[k] == d;
            assert(pd[k] == (o, d));
        }
        if pd.contains((o, d)) {
            let k = choose|k: int| 0 <= k < pd.len() && pd[k] == (o, d);
            assert(md[k] == d);
        }
    }
    let mo = matching_offers(d, offers);
    let po = proposals_for_demand(d, offers);
    if offers.contains(o) {
        if compatible(o, d) {
            let i = choose|i: int| 0 <= i < offers.len() && offers[i] == o;
            assert(mo.contains(offers[i]));
            let k = choose|k: int| 0 <= k < mo.len() && mo[k] == o;
            assert(po[k] == (o, d));
        }
        if po.contains((o, d)) {
            let k = choose|k: int| 0 <= k < po.len() && po[k] == (o, d);
            assert(mo[k] == o);
        }
    }
}

} // verus!
