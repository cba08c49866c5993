use vstd::prelude::*;

verus! {

/// Multiplier of the fingerprint mix step.
pub const FINGERPRINT_PRIME: u64 = 0x100000001b3;

/// Starting value of the fingerprint.
pub const FINGERPRINT_OFFSET: u64 = 0xcbf29ce484222325;

/// Identifier of an Offer or a Demand, derived from its content.
#[derive(Clone, Copy, Debug, PartialEq, Eq, Structural)]
pub struct SubscriptionId {
    pub value: u64,
}

/// One attribute of a subscription's property bag.
#[derive(Clone, Copy, Debug, PartialEq, Eq, Structural)]
pub struct Property {
    pub key: u64,
    pub value: u64,
}

/// One requirement on a counterpart: it must hold a property `key`
/// whose value lies in `min..=max`.
#[derive(Clone, Copy, Debug, PartialEq, Eq, Structural)]
pub struct Constraint {
    pub key: u64,
    pub min: u64,
    pub max: u64,
}

/// An Offer or a Demand as stored by a node.
#[derive(Debug)]
pub struct Subscription {
    pub id: SubscriptionId,
    pub owner: u64,
    pub properties: Vec<Property>,
    pub constraints: Vec<Constraint>,
    pub creation_ts: u64,
    pub expiration_ts: u64,
}

/// Capability announcement of a provider.
pub type Offer = Subscription;

/// Resource need of a requestor.
pub type Demand = Subscription;

/// Mathematical value of a [`Subscription`].
pub struct SubscriptionView {
    pub id: SubscriptionId,
    pub owner: u64,
    pub properties: Seq<Property>,
    pub constraints: Seq<Constraint>,
    pub creation_ts: u64,
    pub expiration_ts: u64,
}

impl View for Subscription {
    type V = SubscriptionView;

    open spec fn view(&self) -> SubscriptionView {
        SubscriptionView {
            id: self.id,
            owner: self.owner,
            properties: self.properties@,
            constraints: self.constraints@,
            creation_ts: self.creation_ts,
            expiration_ts: self.expiration_ts,
        }
    }
}

/// The values of a sequence of stored subscriptions.
pub open spec fn views(s: Seq<Subscription>) -> Seq<SubscriptionView> {
    s.map_values(|o: Subscription| o@)
}

pub open spec fn mix(h: u64, x: u64) -> u64 {
    h.wrapping_mul(FINGERPRINT_PRIME).wrapping_add(x)
}

/// Fingerprint of a sequence of words, folded from the left.
pub open spec fn fold_words(s: Seq<u64>) -> u64
    decreases s.len(),
{
    if s.len() == 0 {
        FINGERPRINT_OFFSET
    } else {
        mix(fold_words(s.drop_last()), s.last())
    }
}

pub open spec fn property_words(ps: Seq<Property>) -> Seq<u64>
    decreases ps.len(),
{
    if ps.len() == 0 {
        Seq::empty()
    } else {
        property_words(ps.drop_last()) + seq![ps.last().key, ps.last().value]
    }
}

pub open spec fn constraint_words(cs: Seq<Constraint>) -> Seq<u64>
    decreases cs.len(),
{
    if cs.len() == 0 {
        Seq::empty()
    } else {
        constraint_words(cs.drop_last()) + seq![cs.last().key, cs.last().min, cs.last().max]
    }
}

/// The words a subscription's identity is derived from: owner, timestamps,
/// the property bag and the constraint expression, each list led by its length.
pub open spec fn content_words(
    owner: u64,
    properties: Seq<Property>,
    constraints: Seq<Constraint>,
    creation_ts: u64,
    expiration_ts: u64,
) -> Seq<u64> {
    seq![owner, creation_ts, expiration_ts, properties.len() as u64] + property_words(properties)
        + seq![constraints.len() as u64] + constraint_words(constraints)
}

/// The identity that a subscription with this content carries on every node.
pub open spec fn fingerprint(
    owner: u64,
    properties: Seq<Property>,
    constraints: Seq<Constraint>,
    creation_ts: u64,
    expiration_ts: u64,
) -> SubscriptionId {
    SubscriptionId {
        value: fold_words(content_words(owner, properties, constraints, creation_ts, expiration_ts)),
    }
}

/// The value of a subscription built from this content.
pub open spec fn new_view(
    owner: u64,
    properties: Seq<Property>,
    constraints: Seq<Constraint>,
    creation_ts: u64,
    expiration_ts: u64,
) -> SubscriptionView {
    SubscriptionView {
        id: fingerprint(owner, properties, constraints, creation_ts, expiration_ts),
        owner,
        properties,
        constraints,
        creation_ts,
        expiration_ts,
    }
}

impl SubscriptionView {
    /// The id matches the content.
    pub open spec fn id_valid(self) -> bool {
        self.id == fingerprint(
            self.owner,
            self.properties,
            self.constraints,
            self.creation_ts,
            self.expiration_ts,
        )
    }

    pub open spec fn expired_at(self, now: u64) -> bool {
        self.expiration_ts <= now
    }
}

/// Constraint `c` is met by some property in `props`.
pub open spec fn constraint_met(c: Constraint, props: Seq<Property>) -> bool {
    exists|i: int| 0 <= i < props.len() && props[i].key == c.key && c.min <= #[trigger] props[i].value <= c.max
}

/// Every constraint in `cs` is met by `props`.
pub open spec fn constraints_met(cs: Seq<Constraint>, props: Seq<Property>) -> bool {
    forall|j: int| 0 <= j < cs.len() ==> constraint_met(#[trigger] cs[j], props)
}

/// Symmetric compatibility of an Offer and a Demand.
pub open spec fn compatible(offer: SubscriptionView, demand: SubscriptionView) -> bool {
    constraints_met(demand.constraints, offer.properties) && constraints_met(
        offer.constraints,
        demand.properties,
    )
}

/// No constraint describes an empty value range.
pub open spec fn constraints_well_formed(cs: Seq<Constraint>) -> bool {
    forall|j: int| 0 <= j < cs.len() ==> (#[trigger] cs[j]).min <= cs[j].max
}


fn copy_properties(v: &Vec<Property>) -> (r: Vec<Property>)
    ensures
        r@ == v@,
{
    let mut r: Vec<Property> = Vec::new();
    let mut i: usize = 0;
    while i < v.len()
        invariant
            i <= v.len(),
            r@ == v@.take(i as int),
        decreases v.len() - i,
    {
        r.push(v[i]);
        i = i + 1;
        assert(r@ =~= v@.take(i as int));
    }
    assert(v@.take(v.len() as int) =~= v@);
    r
}

fn copy_constraints(v: &Vec<Constraint>) -> (r: Vec<Constraint>)
    ensures
        r@ == v@,
{
    let mut r: Vec<Constraint> = Vec::new();
    let mut i: usize = 0;
    while i < v.len()
        invariant
            i <= v.len(),
            r@ == v@.take(i as int),
        decreases v.len() - i,
    {
        r.push(v[i]);
        i = i + 1;
        assert(r@ =~= v@.take(i as int));
    }
    assert(v@.take(v.len() as int) =~= v@);
    r
}

/// Folds `words` into a fingerprint.
fn fold_vec(words: &Vec<u64>) -> (r: u64)
    ensures
        r == fold_words(words@),
{
    let mut h: u64 = FINGERPRINT_OFFSET;
    let mut i: usize = 0;
    assert(words@.take(0) =~= Seq::<u64>::empty());
    while i < words.len()
        invariant
            i <= words.len(),
            h == fold_words(words@.take(i as int)),
        decreases words.len() - i,
    {
        assert(words@.take(i + 1).drop_last() =~= words@.take(i as int));
        h = h.wrapping_mul(FINGERPRINT_PRIME).wrapping_add(words[i]);
        i = i + 1;
    }
    assert(words@.take(words.len() as int) =~= words@);
    h
}

fn push_property_words(out: &mut Vec<u64>, ps: &Vec<Property>)
    ensures
        final(out)@ == old(out)@ + property_words(ps@),
{
    let mut i: usize = 0;
    assert(old(out)@ + property_words(ps@.take(0)) =~= old(out)@);
    while i < ps.len()
        invariant
            i <= ps.len(),
            out@ == old(out)@ + property_words(ps@.take(i as int)),
        decreases ps.len() - i,
    {
        assert(ps@.take(i + 1).drop_last() =~= ps@.take(i as int));
        out.push(ps[i].key);
        out.push(ps[i].value);
        i = i + 1;
        assert(out@ =~= old(out)@ + property_words(ps@.take(i as int)));
    }
    assert(ps@.take(ps.len() as int) =~= ps@);
}

fn push_constraint_words(out: &mut Vec<u64>, cs: &Vec<Constraint>)
    ensures
        final(out)@ == old(out)@ + constraint_words(cs@),
{
    let mut i: usize = 0;
    assert(old(out)@ + constraint_words(cs@.take(0)) =~= old(out)@);
    while i < cs.len()
        invariant
            i <= cs.len(),
            out@ == old(out)@ + constraint_words(cs@.take(i as int)),
        decreases cs.len() - i,
    {
        assert(cs@.take(i + 1).drop_last() =~= cs@.take(i as int));
        out.push(cs[i].key);
        out.push(cs[i].min);
        out.push(cs[i].max);
        i = i + 1;
        assert(out@ =~= old(out)@ + constraint_words(cs@.take(i as int)));
    }
    assert(cs@.take(cs.len() as int) =~= cs@);
}

impl SubscriptionId {
    /// Derives the id of a subscription from its content.
    pub fn generate(
        owner: u64,
        properties: &Vec<Property>,
        constraints: &Vec<Constraint>,
        creation_ts: u64,
        expiration_ts: u64,
    ) -> (r: SubscriptionId)
        ensures
            r == fingerprint(owner, properties@, constraints@, creation_ts, expiration_ts),
    {
        let mut words: Vec<u64> = Vec::new();
        words.push(owner);
        words.push(creation_ts);
        words.push(expiration_ts);
        words.push(properties.len() as u64);
        push_property_words(&mut words, properties);
        words.push(constraints.len() as u64);
        push_constraint_words(&mut words, constraints);
        assert(words@ =~= content_words(owner, properties@, constraints@, creation_ts, expiration_ts));
        SubscriptionId { value: fold_vec(&words) }
    }
}

impl Subscription {
    /// Builds a subscription whose id is derived from its content.
    pub fn new(
        owner: u64,
        properties: Vec<Property>,
        constraints: Vec<Constraint>,
        creation_ts: u64,
        expiration_ts: u64,
    ) -> (r: Subscription)
        ensures
            r@ == new_view(owner, properties@, constraints@, creation_ts, expiration_ts),
            r@.id_valid(),
    {
        let id = SubscriptionId::generate(owner, &properties, &constraints, creation_ts, expiration_ts);
        Subscription { id, owner, properties, constraints, creation_ts, expiration_ts }
    }

    /// An independent copy of this subscription.
    pub fn duplicate(&self) -> (r: Subscription)
        ensures
            r@ == self@,
    {
        Subscription {
            id: self.id,
            owner: self.owner,
            properties: copy_properties(&self.properties),
            constraints: copy_constraints(&self.constraints),
            creation_ts: self.creation_ts,
            expiration_ts: self.expiration_ts,
        }
    }

    /// Whether the id matches the content.
    pub fn has_valid_id(&self) -> (r: bool)
        ensures
            r == self@.id_valid(),
    {
        let expected = SubscriptionId::generate(
            self.owner,
            &self.properties,
            &self.constraints,
            self.creation_ts,
            self.expiration_ts,
        );
        expected.value == self.id.value
    }

    pub fn is_expired(&self, now: u64) -> (r: bool)
        ensures
            r == self@.expired_at(now),
    {
        self.expiration_ts <= now
    }
}

/// Whether `id` occurs in `ids`.
pub fn contains_id(ids: &Vec<SubscriptionId>, id: SubscriptionId) -> (r: bool)
    ensures
        r == ids@.contains(id),
{
    let mut i: usize = 0;
    while i < ids.len()
        invariant
            i <= ids.len(),
            forall|k: int| 0 <= k < i ==> ids@[k] != id,
        decreases ids.len() - i,
    {
        if ids[i].value == id.value {
            assert(ids@[i as int] == id);
            return true;
        }
        i = i + 1;
    }
    false
}

/// Whether constraint `c` is met by `props`.
pub fn constraint_holds(c: &Constraint, props: &Vec<Property>) -> (r: bool)
    ensures
        r == constraint_met(*c, props@),
{
    let mut i: usize = 0;
    while i < props.len()
        invariant
            i <= props.len(),
            forall|k: int|
                0 <= k < i ==> !(props@[k].key == c.key && c.min <= #[trigger] props@[k].value <= c.max),
        decreases props.len() - i,
    {
        let p = props[i];
        if p.key == c.key && c.min <= p.value && p.value <= c.max {
            return true;
        }
        i = i + 1;
    }
    false
}

/// Whether every constraint of `cs` is met by `props`.
pub fn constraints_hold(cs: &Vec<Constraint>, props: &Vec<Property>) -> (r: bool)
    ensures
        r == constraints_met(cs@, props@),
{
    let mut j: usize = 0;
    while j < cs.len()
        invariant
            j <= cs.len(),
            forall|k: int| 0 <= k < j ==> constraint_met(#[trigger] cs@[k], props@),
        decreases cs.len() - j,
    {
        if !constraint_holds(&cs[j], props) {
            return false;
        }
        j = j + 1;
    }
    true
}

/// Whether an Offer and a Demand accept each other.
pub fn is_compatible(offer: &Offer, demand: &Demand) -> (r: bool)
    ensures
        r == compatible(offer@, demand@),
{
    constraints_hold(&demand.constraints, &offer.properties) && constraints_hold(
        &offer.constraints,
        &demand.properties,
    )
}

/// Whether no constraint of `cs` describes an empty range.
pub fn constraints_valid(cs: &Vec<Constraint>) -> (r: bool)
    ensures
        r == constraints_well_formed(cs@),
{
    let mut j: usize = 0;
    while j < cs.len()
        invariant
            j <= cs.len(),
            forall|k: int| 0 <= k < j ==> (#[trigger] cs@[k]).min <= cs@[k].max,
        decreases cs.len() - j,
    {
        if cs[j].min > cs[j].max {
            return false;
        }
        j = j + 1;
    }
    true
}

} // verus!
