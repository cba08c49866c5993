use vstd::prelude::*;
use crate::model::SubscriptionId;

verus! {

/// How many notifications a notifier keeps for listeners that lag behind.
pub const CHANNEL_CAPACITY: usize = 100;

/// Why a wait for an event ended without one.
#[derive(Debug, PartialEq, Eq, Structural)]
pub enum NotifierError<Type> {
    Timeout(Type),
    Unsubscribed(Type),
    ChannelClosed(Type),
}

/// A published notification.
#[derive(Clone, Copy, Debug, PartialEq, Eq, Structural)]
pub enum Notification {
    NewEvent(SubscriptionId),
    StopEvents(SubscriptionId),
}

/// Outcome of a wait: `None` while nothing decisive has arrived.
pub type WaitResult = Option<Result<(), NotifierError<SubscriptionId>>>;

/// Mathematical value of an [`EventNotifier`]: the retained notifications,
/// the sequence number of the oldest one, and whether it was closed.
pub struct NotifierView {
    pub backlog: Seq<Notification>,
    pub first: nat,
    pub closed: bool,
}

/// Mathematical value of an [`EventNotifierListener`].
pub struct ListenerView {
    pub key: SubscriptionId,
    pub cursor: nat,
}

/// The notification concerns `key`. Both kinds are filtered by key: stopping
/// the events of one subscription does not end waits on the others.
pub open spec fn concerns(n: Notification, key: SubscriptionId) -> bool {
    match n {
        Notification::NewEvent(k) => k == key,
        Notification::StopEvents(k) => k == key,
    }
}

pub open spec fn result_of(n: Notification) -> Result<(), NotifierError<SubscriptionId>> {
    match n {
        Notification::NewEvent(_) => Ok(()),
        Notification::StopEvents(k) => Err(NotifierError::Unsubscribed(k)),
    }
}

/// The result of the first notification in `s` that concerns `key`.
pub open spec fn scan_outcome(s: Seq<Notification>, key: SubscriptionId) -> WaitResult
    decreases s.len(),
{
    if s.len() == 0 {
        None
    } else if concerns(s[0], key) {
        Some(result_of(s[0]))
    } else {
        scan_outcome(s.drop_first(), key)
    }
}

/// How many notifications of `s` a wait on `key` reads.
pub open spec fn scan_consumed(s: Seq<Notification>, key: SubscriptionId) -> nat
    decreases s.len(),
{
    if s.len() == 0 {
        0
    } else if concerns(s[0], key) {
        1
    } else {
        1 + scan_consumed(s.drop_first(), key)
    }
}

impl NotifierView {
    /// Sequence number of the next notification.
    pub open spec fn next(self) -> nat {
        self.first + self.backlog.len()
    }

    pub open spec fn wf(self) -> bool {
        &&& self.backlog.len() <= CHANNEL_CAPACITY
        &&& self.next() <= u64::MAX
    }

    /// The notifier after publishing `x`; the oldest notification is dropped
    /// when the backlog is full. A closed notifier publishes nothing.
    pub open spec fn sent(self, x: Notification) -> NotifierView {
        if self.closed {
            self
        } else if self.backlog.len() + 1 > CHANNEL_CAPACITY {
            NotifierView { backlog: self.backlog.push(x).drop_first(), first: self.first + 1, ..self }
        } else {
            NotifierView { backlog: self.backlog.push(x), ..self }
        }
    }

    /// A listener made now: it sees only what is published from now on.
    pub open spec fn listener(self, key: SubscriptionId) -> ListenerView {
        ListenerView { key, cursor: self.next() }
    }

    /// Where a listener resumes: a listener that lagged behind the backlog
    /// resumes at its oldest notification.
    pub open spec fn start(self, l: ListenerView) -> nat {
        if l.cursor < self.first {
            self.first
        } else if l.cursor > self.next() {
            self.next()
        } else {
            l.cursor
        }
    }

    /// The notifications a listener has not read yet.
    pub open spec fn unread(self, l: ListenerView) -> Seq<Notification> {
        self.backlog.subrange(self.start(l) - self.first, self.backlog.len() as int)
    }

    /// What `wait_for_event` returns.
    pub open spec fn wait_outcome(self, l: ListenerView) -> WaitResult {
        match scan_outcome(self.unread(l), l.key) {
            Some(x) => Some(x),
            None => if self.closed {
                Some(Err(NotifierError::ChannelClosed(l.key)))
            } else {
                None
            },
        }
    }

    /// The listener after `wait_for_event`.
    pub open spec fn after_wait(self, l: ListenerView) -> ListenerView {
        ListenerView { key: l.key, cursor: self.start(l) + scan_consumed(self.unread(l), l.key) }
    }

    /// What `wait_for_event_with_timeout` returns after `waited` of `timeout`.
    pub open spec fn timed_outcome(self, l: ListenerView, waited: u64, timeout: u64) -> WaitResult {
        if self.wait_outcome(l) is None && waited >= timeout {
            Some(Err(NotifierError::Timeout(l.key)))
        } else {
            self.wait_outcome(l)
        }
    }
}

/// Publishes events keyed by subscription id to any number of listeners.
pub struct EventNotifier {
    backlog: Vec<Notification>,
    first_seq: u64,
    closed: bool,
}

/// Waits for events of one subscription. It reads only what was published
/// after it was made, so it must exist before the awaited event can fire.
pub struct EventNotifierListener {
    subscription_id: SubscriptionId,
    cursor: u64,
}

impl View for EventNotifier {
    type V = NotifierView;

    closed spec fn view(&self) -> NotifierView {
        NotifierView { backlog: self.backlog@, first: self.first_seq as nat, closed: self.closed }
    }
}

impl View for EventNotifierListener {
    type V = ListenerView;

    closed spec fn view(&self) -> ListenerView {
        ListenerView { key: self.subscription_id, cursor: self.cursor as nat }
    }
}

impl EventNotifier {
    pub fn new() -> (r: EventNotifier)
        ensures
            r@.backlog.len() == 0,
            r@.first == 0,
            !r@.closed,
            r@.wf(),
    {
        EventNotifier { backlog: Vec::new(), first_seq: 0, closed: false }
    }

    /// Whether another notification can be numbered.
    pub fn has_room(&self) -> (r: bool)
        requires
            self@.wf(),
        ensures
            r == (self@.next() < u64::MAX),
    {
        self.first_seq < u64::MAX - self.backlog.len() as u64
    }

    fn send(&mut self, x: Notification)
        requires
            old(self)@.wf(),
            old(self)@.next() < u64::MAX,
        ensures
            final(self)@ == old(self)@.sent(x),
            final(self)@.wf(),
    {
        if self.closed {
            return;
        }
        let ghost pre = self@;
        self.backlog.push(x);
        if self.backlog.len() > CHANNEL_CAPACITY {
            self.backlog.remove(0);
            self.first_seq = self.first_seq + 1;
            assert(self@.backlog =~= pre.backlog.push(x).drop_first());
        }
        assert(self@ =~= pre.sent(x));
    }

    /// Tells every listener of `subscription_id` that an event happened.
    pub fn notify(&mut self, subscription_id: SubscriptionId)
        requires
            old(self)@.wf(),
            old(self)@.next() < u64::MAX,
        ensures
            final(self)@ == old(self)@.sent(Notification::NewEvent(subscription_id)),
            final(self)@.wf(),
    {
        self.send(Notification::NewEvent(subscription_id));
    }

    /// Ends the waits of the listeners of `subscription_id`.
    pub fn stop_notifying(&mut self, subscription_id: SubscriptionId)
        requires
            old(self)@.wf(),
            old(self)@.next() < u64::MAX,
        ensures
            final(self)@ == old(self)@.sent(Notification::StopEvents(subscription_id)),
            final(self)@.wf(),
    {
        self.send(Notification::StopEvents(subscription_id));
    }

    /// Closes the notifier: waits that find nothing more end with
    /// `ChannelClosed`.
    pub fn close(&mut self)
        ensures
            final(self)@ == (NotifierView { closed: true, ..old(self)@ }),
    {
        self.closed = true;
    }

    /// A listener for `subscription_id` that sees what is published from
    /// now on.
    pub fn listen(&self, subscription_id: SubscriptionId) -> (r: EventNotifierListener)
        requires
            self@.wf(),
        ensures
            r@ == self@.listener(subscription_id),
    {
        EventNotifierListener {
            subscription_id,
            cursor: self.first_seq + self.backlog.len() as u64,
        }
    }
}

proof fn lemma_scan_step(b: Seq<Notification>, i: int, key: SubscriptionId)
    requires
        0 <= i < b.len(),
        !concerns(b[i], key),
    ensures
        scan_outcome(b.subrange(i, b.len() as int), key) == scan_outcome(b.subrange(i + 1, b.len() as int), key),
        scan_consumed(b.subrange(i, b.len() as int), key) == 1 + scan_consumed(b.subrange(i + 1, b.len() as int), key),
{
    assert(b.subrange(i, b.len() as int).drop_first() =~= b.subrange(i + 1, b.len() as int));
}

impl EventNotifierListener {
    /// The subscription this listener waits on.
    pub fn subscription_id(&self) -> (r: SubscriptionId)
        ensures
            r == self@.key,
    {
        self.subscription_id
    }

    /// Whether notifications meant for this listener were dropped before it
    /// read them.
    pub fn lagged(&self, notifier: &EventNotifier) -> (r: bool)
        ensures
            r == (self@.cursor < notifier@.first),
    {
        self.cursor < notifier.first_seq
    }

    /// Reads what was published since the last wait, up to the first
    /// notification for this listener's subscription: `Ok` for an event,
    /// `Unsubscribed` for a stop; `ChannelClosed` once the notifier is closed
    /// and nothing is left; `None` while it is open and nothing arrived.
    pub fn wait_for_event(&mut self, notifier: &EventNotifier) -> (r: WaitResult)
        requires
            notifier@.wf(),
        ensures
            r == notifier@.wait_outcome(old(self)@),
            final(self)@ == notifier@.after_wait(old(self)@),
    {
        let ghost n = notifier@;
        let ghost l = old(self)@;
        let next = notifier.first_seq + notifier.backlog.len() as u64;
        let start = if self.cursor < notifier.first_seq {
            notifier.first_seq
        } else if self.cursor > next {
            next
        } else {
            self.cursor
        };
        let mut i: usize = (start - notifier.first_seq) as usize;
        let len = notifier.backlog.len();
        while i < len
            invariant
                n == notifier@,
                n.wf(),
                len == n.backlog.len(),
                start == n.start(l),
                start - n.first <= i <= len,
                scan_outcome(n.unread(l), l.key) == scan_outcome(n.backlog.subrange(i as int, len as int), l.key),
                start + scan_consumed(n.unread(l), l.key) == n.first + i + scan_consumed(
                    n.backlog.subrange(i as int, len as int),
                    l.key,
                ),
                self.subscription_id == l.key,
                l == old(self)@,
            decreases len - i,
        {
            let x = notifier.backlog[i];
            let hit = match x {
                Notification::NewEvent(k) => k.value == self.subscription_id.value,
                Notification::StopEvents(k) => k.value == self.subscription_id.value,
            };
            if hit {
                let ghost rest = n.backlog.subrange(i as int, len as int);
                assert(rest[0] == x);
                assert(concerns(x, l.key)) by {
                    match x {
                        Notification::NewEvent(k) => assert(k == l.key),
                        Notification::StopEvents(k) => assert(k == l.key),
                    }
                }
                assert(scan_outcome(rest, l.key) == Some(result_of(x)));
                assert(scan_consumed(rest, l.key) == 1);
                self.cursor = notifier.first_seq + i as u64 + 1;
                return match x {
                    Notification::NewEvent(_) => Some(Ok(())),
                    Notification::StopEvents(k) => Some(Err(NotifierError::Unsubscribed(k))),
                };
            }
            proof {
                lemma_scan_step(n.backlog, i as int, l.key);
            }
            i = i + 1;
        }
        assert(n.backlog.subrange(len as int, len as int) =~= Seq::<Notification>::empty());
        self.cursor = next;
        if notifier.closed {
            Some(Err(NotifierError::ChannelClosed(self.subscription_id)))
        } else {
            None
        }
    }

    /// As `wait_for_event`, but gives up with `Timeout` when nothing decisive
    /// arrived and `waited_ms` has reached `timeout_ms`. Giving up reads no
    /// later notification.
    pub fn wait_for_event_with_timeout(&mut self, notifier: &EventNotifier, waited_ms: u64, timeout_ms: u64) -> (r: WaitResult)
        requires
            notifier@.wf(),
        ensures
            r == notifier@.timed_outcome(old(self)@, waited_ms, timeout_ms),
            final(self)@ == notifier@.after_wait(old(self)@),
    {
        let r = self.wait_for_event(notifier);
        if r.is_none() && waited_ms >= timeout_ms {
            Some(Err(NotifierError::Timeout(self.subscription_id)))
        } else {
            r
        }
    }
}

/// A wait that finds nothing decisive reads every unread notification.
proof fn lemma_scan_none_consumes_all(s: Seq<Notification>, key: SubscriptionId)
    requires
        scan_outcome(s, key) is None,
    ensures
        scan_consumed(s, key) == s.len(),
    decreases s.len(),
{
    if s.len() > 0 {
        lemma_scan_none_consumes_all(s.drop_first(), key);
    }
}

/// What a listener made before one more notification `x` reads: `x` alone.
proof fn lemma_fresh_listener_reads_one(n: NotifierView, key: SubscriptionId, x: Notification)
    requires
        n.wf(),
        !n.closed,
        n.next() < u64::MAX,
    ensures
        n.sent(x).unread(n.listener(key)) == seq![x],
{
    let t = n.sent(x);
    let l = n.listener(key);
    assert(t.next() == n.next() + 1);
    assert(t.start(l) == n.next());
    assert(t.backlog[t.backlog.len() - 1] == x);
    assert(t.unread(l) =~= seq![x]);
}

/// A listener made before `notify(key)` receives the event; a notification
/// for another key leaves it waiting; `stop_notifying(key)` ends its wait
/// with `Unsubscribed`.
pub proof fn lemma_notifier_round_trip(n: NotifierView, key: SubscriptionId, other: SubscriptionId)
    requires
        n.wf(),
        !n.closed,
        n.next() < u64::MAX,
        other != key,
    ensures
        n.sent(Notification::NewEvent(key)).wait_outcome(n.listener(key)) == Some(
            Ok::<(), NotifierError<SubscriptionId>>(()),
        ),
        n.sent(Notification::NewEvent(other)).wait_outcome(n.listener(key)) is None,
        n.sent(Notification::StopEvents(key)).wait_outcome(n.listener(key)) == Some(
            Err::<(), NotifierError<SubscriptionId>>(NotifierError::Unsubscribed(key)),
        ),
{
    lemma_fresh_listener_reads_one(n, key, Notification::NewEvent(key));
    lemma_fresh_listener_reads_one(n, key, Notification::NewEvent(other));
    lemma_fresh_listener_reads_one(n, key, Notification::StopEvents(key));
    let s = seq![Notification::NewEvent(other)];
    assert(s.drop_first() =~= Seq::<Notification>::empty());
    assert(scan_outcome(s.drop_first(), key) is None);
    assert(!concerns(s[0], key));
    assert(scan_outcome(s, key) is None);
}

/// The notifier after publishing each of `xs` in order.
pub open spec fn sent_all(n: NotifierView, xs: Seq<Notification>) -> NotifierView
    decreases xs.len(),
{
    if xs.len() == 0 {
        n
    } else {
        sent_all(n, xs.drop_last()).sent(xs.last())
    }
}

/// After publishing `xs` on an open notifier, every retained notification
/// numbered from `n.next()` on is the matching one of `xs`.
proof fn lemma_sent_all_layout(n: NotifierView, xs: Seq<Notification>)
    requires
        n.wf(),
        !n.closed,
        n.next() + xs.len() <= u64::MAX,
    ensures
        sent_all(n, xs).wf(),
        !sent_all(n, xs).closed,
        sent_all(n, xs).next() == n.next() + xs.len(),
        xs.len() > 0 ==> sent_all(n, xs).backlog.len() > 0,
        forall|q: int|
            sent_all(n, xs).first <= q < sent_all(n, xs).next() && n.next() <= q ==> #[trigger] sent_all(
                n,
                xs,
            ).backlog[q - sent_all(n, xs).first] == xs[q - n.next()],
    decreases xs.len(),
{
    if xs.len() > 0 {
        let ys = xs.drop_last();
        lemma_sent_all_layout(n, ys);
        let u = sent_all(n, ys);
        let t = sent_all(n, xs);
        assert(t == u.sent(xs.last()));
        assert forall|q: int| t.first <= q < t.next() && n.next() <= q implies #[trigger] t.backlog[q - t.first] == xs[q - n.next()] by {
            let pushed = u.backlog.push(xs.last());
            assert(t.backlog[q - t.first] == pushed[q - u.first]);
            if q < u.next() {
                assert(u.backlog[q - u.first] == ys[q - n.next()]);
            }
        }
    }
}

/// A run of notifications that ends with an event for `key`, and whose
/// earlier ones do not concern `key`, yields that event.
proof fn lemma_scan_finds_last(s: Seq<Notification>, key: SubscriptionId)
    requires
        s.len() > 0,
        s.last() == Notification::NewEvent(key),
        forall|i: int| 0 <= i < s.len() - 1 ==> !concerns(#[trigger] s[i], key),
    ensures
        scan_outcome(s, key) == Some(Ok::<(), NotifierError<SubscriptionId>>(())),
    decreases s.len(),
{
    if s.len() > 1 {
        assert(!concerns(s[0], key));
        let t = s.drop_first();
        assert forall|i: int| 0 <= i < t.len() - 1 implies !concerns(#[trigger] t[i], key) by {
            assert(t[i] == s[i + 1]);
        }
        lemma_scan_finds_last(t, key);
    }
}

/// A wait that times out reads nothing it should not: after any number of
/// notifications for other keys, an event for the key is received by the
/// next wait.
pub proof fn lemma_timeout_keeps_later_events(
    n: NotifierView,
    l: ListenerView,
    waited: u64,
    timeout: u64,
    others: Seq<Notification>,
)
    requires
        n.wf(),
        !n.closed,
        n.next() + others.len() < u64::MAX,
        n.wait_outcome(l) is None,
        waited >= timeout,
        forall|i: int| 0 <= i < others.len() ==> !concerns(#[trigger] others[i], l.key),
    ensures
        n.timed_outcome(l, waited, timeout) == Some(
            Err::<(), NotifierError<SubscriptionId>>(NotifierError::Timeout(l.key)),
        ),
        sent_all(n, others).sent(Notification::NewEvent(l.key)).wait_outcome(n.after_wait(l)) == Some(
            Ok::<(), NotifierError<SubscriptionId>>(()),
        ),
{
    lemma_scan_none_consumes_all(n.unread(l), l.key);
    let l2 = n.after_wait(l);
    assert(l2 == n.listener(l.key));
    let ev = Notification::NewEvent(l.key);
    let xs = others.push(ev);
    assert(xs.drop_last() =~= others);
    let t = sent_all(n, xs);
    assert(t == sent_all(n, others).sent(ev));
    lemma_sent_all_layout(n, xs);
    let start = t.start(l2);
    let u = t.unread(l2);
    assert(start == if t.first > n.next() { t.first } else { n.next() });
    assert(u.len() > 0);
    assert forall|j: int| 0 <= j < u.len() implies #[trigger] u[j] == xs[start + j - n.next()] by {
        let q = start + j;
        assert(u[j] == t.backlog[q - t.first]);
    }
    assert(u.last() == ev);
    assert forall|j: int| 0 <= j < u.len() - 1 implies !concerns(#[trigger] u[j], l.key) by {
        assert(u[j] == xs[start + j - n.next()]);
        assert(xs[start + j - n.next()] == others[start + j - n.next()]);
    }
    lemma_scan_finds_last(u, l.key);
}

} // verus!
