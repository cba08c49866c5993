use market_matcher::model::SubscriptionId;
use market_matcher::notifier::{EventNotifier, NotifierError, CHANNEL_CAPACITY};

fn key(v: u64) -> SubscriptionId {
    SubscriptionId { value: v }
}

#[test]
fn listen_then_notify_succeeds() {
    let mut n = EventNotifier::new();
    let mut l = n.listen(key(1));
    assert_eq!(l.wait_for_event(&n), None);
    n.notify(key(1));
    assert_eq!(l.wait_for_event(&n), Some(Ok(())));
    assert_eq!(l.wait_for_event(&n), None);
}

#[test]
fn other_key_leaves_listener_waiting() {
    let mut n = EventNotifier::new();
    let mut l = n.listen(key(1));
    n.notify(key(2));
    assert_eq!(l.wait_for_event(&n), None);
    n.notify(key(1));
    assert_eq!(l.wait_for_event(&n), Some(Ok(())));
}

#[test]
fn events_before_listen_are_not_seen() {
    let mut n = EventNotifier::new();
    n.notify(key(1));
    let mut l = n.listen(key(1));
    assert_eq!(l.wait_for_event(&n), None);
}

#[test]
fn stop_notifying_ends_wait() {
    let mut n = EventNotifier::new();
    let mut l = n.listen(key(1));
    let mut other = n.listen(key(2));
    n.stop_notifying(key(1));
    assert_eq!(l.wait_for_event(&n), Some(Err(NotifierError::Unsubscribed(key(1)))));
    assert_eq!(other.wait_for_event(&n), None);
}

#[test]
fn timeout_does_not_swallow_later_event() {
    let mut n = EventNotifier::new();
    let mut l = n.listen(key(1));
    n.notify(key(2));
    assert_eq!(l.wait_for_event_with_timeout(&n, 50, 100), None);
    assert_eq!(l.wait_for_event_with_timeout(&n, 100, 100), Some(Err(NotifierError::Timeout(key(1)))));
    n.notify(key(1));
    assert_eq!(l.wait_for_event_with_timeout(&n, 0, 100), Some(Ok(())));
}

#[test]
fn timeout_then_other_keys_then_event() {
    let mut n = EventNotifier::new();
    let mut l = n.listen(key(1));
    assert_eq!(l.wait_for_event_with_timeout(&n, 100, 100), Some(Err(NotifierError::Timeout(key(1)))));
    for v in 2..(CHANNEL_CAPACITY as u64 + 10) {
        n.notify(key(v));
    }
    n.notify(key(1));
    assert_eq!(l.wait_for_event_with_timeout(&n, 0, 100), Some(Ok(())));
}

#[test]
fn closed_channel_ends_wait() {
    let mut n = EventNotifier::new();
    let mut l = n.listen(key(1));
    n.notify(key(1));
    n.close();
    assert_eq!(l.wait_for_event(&n), Some(Ok(())));
    assert_eq!(l.wait_for_event(&n), Some(Err(NotifierError::ChannelClosed(key(1)))));
}

#[test]
fn lagging_listener_resumes_with_latest() {
    let mut n = EventNotifier::new();
    let mut l = n.listen(key(1));
    n.notify(key(1));
    for _ in 0..CHANNEL_CAPACITY {
        n.notify(key(2));
    }
    assert!(l.lagged(&n));
    assert_eq!(l.wait_for_event(&n), None);
    assert!(!l.lagged(&n));
    n.notify(key(1));
    assert_eq!(l.wait_for_event(&n), Some(Ok(())));
    assert_eq!(l.subscription_id(), key(1));
    assert!(n.has_room());
}
