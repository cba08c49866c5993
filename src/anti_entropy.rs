use vstd::prelude::*;
use rand::seq::SliceRandom;
use rand::Rng;
use crate::matcher::{our_offers, Matcher};
use crate::model::{contains_id, views, Offer, SubscriptionId, SubscriptionView};

verus! {

/// Holds of ids that are not among `ours`.
pub open spec fn outside(ours: Seq<SubscriptionId>) -> spec_fn(SubscriptionId) -> bool {
    |x: SubscriptionId| !ours.contains(x)
}

/// How many foreign ids a round may add beside `own` owned ones.
pub open spec fn sample_budget(budget: u32, own: nat) -> nat {
    if own >= budget {
        0
    } else {
        (budget - own) as nat
    }
}

/// How many known ids lie outside `ours`.
pub open spec fn foreign_count(ours: Seq<SubscriptionId>, all: Seq<SubscriptionId>) -> nat {
    all.to_set().difference(ours.to_set()).len()
}

/// How many foreign ids a round sends: what the budget leaves, or every
/// foreign id when there are fewer.
pub open spec fn round_sample_size(budget: u32, ours: Seq<SubscriptionId>, all: Seq<SubscriptionId>) -> nat {
    let left = sample_budget(budget, ours.to_set().len());
    if left < foreign_count(ours, all) {
        left
    } else {
        foreign_count(ours, all)
    }
}

/// The ids of a sequence of subscriptions.
pub open spec fn ids_of(s: Seq<SubscriptionView>) -> Seq<SubscriptionId> {
    s.map_values(|o: SubscriptionView| o.id)
}

/// Relies on `rand::seq::SliceRandom::choose_multiple` over a slice: it
/// picks `min(amount, len)` distinct positions of `pool` at random.
#[verifier::external_body]
fn sample_ids(pool: &Vec<SubscriptionId>, amount: usize) -> (r: Vec<SubscriptionId>)
    ensures
        r@.len() == if amount < pool@.len() { amount as int } else { pool@.len() as int },
        forall|i: int| 0 <= i < r@.len() ==> pool@.contains(#[trigger] r@[i]),
        pool@.no_duplicates() ==> r@.no_duplicates(),
{
    pool.choose_multiple(&mut rand::thread_rng(), amount).cloned().collect()
}

/// Relies on `rand::Rng::gen_range` over an inclusive range: a value
/// between both bounds; it panics on an empty range.
#[verifier::external_body]
fn random_in_range(lo: u64, hi: u64) -> (r: u64)
    requires
        lo <= hi,
    ensures
        lo <= r <= hi,
{
    rand::thread_rng().gen_range(lo..=hi)
}

/// A random pause around the mean `interval_ms`: between half and one and a
/// half times it, so that nodes do not broadcast in lockstep.
pub fn randomize_interval(interval_ms: u64) -> (r: u64)
    ensures
        interval_ms / 2 <= r,
        r <= interval_ms + interval_ms / 2,
{
    let half = interval_ms / 2;
    let hi = interval_ms.saturating_add(half);
    random_in_range(half, hi)
}

/// Foreign ids a round may add after `own` owned ones: the budget minus
/// `own`, and none once the owned ones fill the budget.
pub fn num_to_broadcast(budget: u32, own: usize) -> (r: u32)
    ensures
        r == sample_budget(budget, own as nat),
{
    if own as u64 >= budget as u64 {
        0
    } else {
        budget - own as u32
    }
}

/// Appending an absent id keeps a list free of repeats and adds just that id
/// to what it holds.
proof fn lemma_push_fresh(s: Seq<SubscriptionId>, x: SubscriptionId)
    requires
        s.no_duplicates(),
        !s.contains(x),
    ensures
        s.push(x).no_duplicates(),
        forall|y: SubscriptionId| #[trigger] s.push(x).contains(y) <==> (s.contains(y) || y == x),
{
    let t = s.push(x);
    assert forall|a: int, b: int| 0 <= a < b < t.len() implies #[trigger] t[a] != #[trigger] t[b] by {
        if b == s.len() {
            assert(s.contains(s[a]));
        } else {
            assert(s[a] != s[b]);
        }
    }
    assert forall|y: SubscriptionId| #[trigger] t.contains(y) <==> (s.contains(y) || y == x) by {
        if t.contains(y) && y != x {
            let k = choose|k: int| 0 <= k < t.len() && t[k] == y;
            assert(s[k] == y);
        }
        if s.contains(y) {
            let k = choose|k: int| 0 <= k < s.len() && s[k] == y;
            assert(t[k] == y);
        }
        if y == x {
            assert(t[s.len() as int] == x);
        }
    }
}

/// A prefix one longer holds what the shorter one holds and the next element.
proof fn lemma_take_next(s: Seq<SubscriptionId>, i: int)
    requires
        0 <= i < s.len(),
    ensures
        forall|y: SubscriptionId| #[trigger] s.take(i + 1).contains(y) <==> (s.take(i).contains(y) || y == s[i]),
{
    assert(s.take(i + 1) =~= s.take(i).push(s[i]));
    assert forall|y: SubscriptionId| #[trigger] s.take(i + 1).contains(y) <==> (s.take(i).contains(y) || y == s[i]) by {
        if s.take(i + 1).contains(y) && y != s[i] {
            let k = choose|k: int| 0 <= k < i + 1 && #[trigger] s.take(i + 1)[k] == y;
            assert(s.take(i)[k] == y);
        }
        if s.take(i).contains(y) {
            let k = choose|k: int| 0 <= k < i && #[trigger] s.take(i)[k] == y;
            assert(s.take(i + 1)[k] == y);
        }
        if y == s[i] {
            assert(s.take(i + 1)[i] == y);
        }
    }
}

/// The ids of `ids` that are not among `excluded`, each once.
fn distinct_except(ids: &Vec<SubscriptionId>, excluded: &Vec<SubscriptionId>) -> (r: Vec<SubscriptionId>)
    ensures
        r@.no_duplicates(),
        forall|x: SubscriptionId| r@.contains(x) <==> (ids@.contains(x) && !excluded@.contains(x)),
{
    let mut r: Vec<SubscriptionId> = Vec::new();
    let mut i: usize = 0;
    while i < ids.len()
        invariant
            i <= ids.len(),
            r@.no_duplicates(),
            forall|x: SubscriptionId| r@.contains(x) <==> (ids@.take(i as int).contains(x) && !excluded@.contains(x)),
        decreases ids.len() - i,
    {
        let x = ids[i];
        proof {
            lemma_take_next(ids@, i as int);
        }
        if !contains_id(excluded, x) && !contains_id(&r, x) {
            proof {
                lemma_push_fresh(r@, x);
            }
            r.push(x);
        }
        i = i + 1;
    }
    assert(ids@.take(ids.len() as int) =~= ids@);
    r
}

/// The ids of `ids`, each once.
pub fn dedup_ids(ids: &Vec<SubscriptionId>) -> (r: Vec<SubscriptionId>)
    ensures
        r@.no_duplicates(),
        forall|x: SubscriptionId| r@.contains(x) <==> ids@.contains(x),
{
    distinct_except(ids, &Vec::new())
}

/// The ids of `all` not among `own`, each once: the pool a round samples
/// from.
pub fn sampling_pool(all: &Vec<SubscriptionId>, own: &Vec<SubscriptionId>) -> (r: Vec<SubscriptionId>)
    ensures
        r@.no_duplicates(),
        forall|x: SubscriptionId| r@.contains(x) <==> (all@.contains(x) && !own@.contains(x)),
{
    distinct_except(all, own)
}

proof fn lemma_filter_keeps_all(s: Seq<SubscriptionId>, p: spec_fn(SubscriptionId) -> bool)
    requires
        forall|i: int| 0 <= i < s.len() ==> p(s[i]),
    ensures
        s.filter(p) == s,
    decreases s.len(),
{
    reveal(Seq::filter);
    if s.len() > 0 {
        lemma_filter_keeps_all(s.drop_last(), p);
        assert(s.drop_last().push(s.last()) =~= s);
    }
}

/// The ids one anti-entropy round sends: every owned id, and a random sample
/// without repeats of the other known ids, sized to what the budget leaves.
pub fn offers_to_broadcast(ours: &Vec<SubscriptionId>, all: &Vec<SubscriptionId>, budget: u32) -> (r: Vec<SubscriptionId>)
    ensures
        r@.no_duplicates(),
        forall|x: SubscriptionId| ours@.contains(x) ==> r@.contains(x),
        forall|x: SubscriptionId| r@.contains(x) ==> ours@.contains(x) || all@.contains(x),
        r@.filter(outside(ours@)).len() <= sample_budget(budget, ours@.to_set().len()),
        r@.filter(outside(ours@)).len() == round_sample_size(budget, ours@, all@),
{
    let mut own = dedup_ids(ours);
    let pool = sampling_pool(all, &own);
    let amount = num_to_broadcast(budget, own.len());
    let mut r = sample_ids(&pool, amount as usize);
    let ghost sample = r@;
    let ghost owned = own@;
    r.append(&mut own);
    proof {
        assert(r@ == sample + owned);
        assert forall|i: int| 0 <= i < sample.len() implies !owned.contains(#[trigger] sample[i]) by {
            assert(pool@.contains(sample[i]));
        }
        assert forall|a: int, b: int| 0 <= a < b < r@.len() implies #[trigger] r@[a] != #[trigger] r@[b] by {
            if b < sample.len() {
                assert(sample[a] != sample[b]);
            } else if a >= sample.len() {
                assert(owned[a - sample.len()] != owned[b - sample.len()]);
            } else {
                assert(r@[b] == owned[b - sample.len()]);
                assert(!owned.contains(sample[a]));
            }
        }
        assert forall|x: SubscriptionId| ours@.contains(x) implies r@.contains(x) by {
            let k = choose|k: int| 0 <= k < owned.len() && owned[k] == x;
            assert(r@[sample.len() + k] == x);
        }
        assert forall|x: SubscriptionId| r@.contains(x) implies ours@.contains(x) || all@.contains(x) by {
            let k = choose|k: int| 0 <= k < r@.len() && r@[k] == x;
            if k < sample.len() {
                assert(pool@.contains(sample[k]));
            } else {
                assert(owned.contains(owned[k - sample.len()]));
            }
        }
        let p = outside(ours@);
        broadcast use vstd::seq::Seq::filter_distributes_over_add;
        assert(r@.filter(p) == sample.filter(p) + owned.filter(p));
        assert forall|i: int| 0 <= i < sample.len() implies p(sample[i]) by {
            assert(!owned.contains(sample[i]));
        }
        lemma_filter_keeps_all(sample, p);
        assert forall|i: int| 0 <= i < owned.len() implies !p(owned[i]) by {
            assert(owned.contains(owned[i]));
        }
        owned.lemma_all_neg_filter_empty(p);
        assert(owned.to_set() =~= ours@.to_set());
        owned.unique_seq_to_set();
        assert(r@.filter(p) =~= sample);
        pool@.unique_seq_to_set();
        assert(pool@.to_set() =~= all@.to_set().difference(ours@.to_set()));
    }
    r
}

/// Collects the ids of `offers`.
pub fn collect_ids(offers: &Vec<Offer>) -> (r: Vec<SubscriptionId>)
    ensures
        r@ == ids_of(views(offers@)),
{
    let mut r: Vec<SubscriptionId> = Vec::new();
    let mut i: usize = 0;
    while i < offers.len()
        invariant
            i <= offers.len(),
            r@ == ids_of(views(offers@)).take(i as int),
        decreases offers.len() - i,
    {
        r.push(offers[i].id);
        i = i + 1;
        assert(r@ =~= ids_of(views(offers@)).take(i as int));
    }
    assert(ids_of(views(offers@)).take(offers.len() as int) =~= ids_of(views(offers@)));
    r
}

/// The ids of one anti-entropy round of `matcher`: the ids of all Offers of
/// its identities, and a random sample of the other stored Offer ids within
/// the configured budget.
pub fn random_broadcast_ids(matcher: &Matcher) -> (r: Vec<SubscriptionId>)
    ensures
        ({
            let ours = ids_of(our_offers(matcher.store@.offers, matcher.identity_list()));
            let all = ids_of(matcher.store@.offers);
            &&& r@.no_duplicates()
            &&& forall|x: SubscriptionId| ours.contains(x) ==> r@.contains(x)
            &&& forall|x: SubscriptionId| r@.contains(x) ==> ours.contains(x) || all.contains(x)
            &&& r@.filter(outside(ours)).len() <= sample_budget(
                matcher.config.num_broadcasted_offers,
                ours.to_set().len(),
            )
            &&& r@.filter(outside(ours)).len() == round_sample_size(
                matcher.config.num_broadcasted_offers,
                ours,
                all,
            )
        }),
{
    let ours = collect_ids(&matcher.list_our_offers());
    let all = collect_ids(&matcher.store.get_offers(None));
    proof {
        lemma_select_all(matcher.store@.offers);
    }
    offers_to_broadcast(&ours, &all, matcher.config.num_broadcasted_offers)
}

proof fn lemma_select_all(s: Seq<SubscriptionView>)
    ensures
        crate::store::select_owned(s, None) == s,
    decreases s.len(),
{
    reveal(Seq::filter);
    if s.len() > 0 {
        lemma_select_all(s.drop_last());
        assert(s.drop_last().push(s.last()) =~= s);
    }
}

} // verus!
