use reactive_store::compute::Increment;
use reactive_store::signal::SignalCell;

#[test]
fn write_then_read() {
    let mut cell = SignalCell::new(0u32);
    assert_eq!(*cell.read(), 0);
    let _ = cell.write(5);
    assert_eq!(*cell.read(), 5);
    let _ = cell.write(7);
    assert_eq!(*cell.read(), 7);
}

#[test]
fn updater_write_applies_the_function() {
    let mut cell = SignalCell::new(0u32);
    for _ in 0..3 {
        let _ = cell.write_with(&Increment);
    }
    assert_eq!(*cell.read(), 3);
}

#[test]
fn versions_count_writes() {
    let mut cell = SignalCell::new(String::new());
    assert_eq!(cell.version(), 0);
    let _ = cell.write(String::from("a"));
    let _ = cell.write(String::from("b"));
    assert_eq!(cell.version(), 2);
    assert_eq!(cell.read().as_str(), "b");
}

#[test]
fn notification_in_subscription_order() {
    let mut cell = SignalCell::new(1u32);
    let first = cell.subscribe();
    let second = cell.subscribe();
    let third = cell.subscribe();
    let notify = cell.write(2);
    assert_eq!(notify, vec![first, second, third]);
}

#[test]
fn tokens_are_never_reused() {
    let mut cell = SignalCell::new(0u32);
    let first = cell.subscribe();
    assert!(cell.unsubscribe(first));
    let second = cell.subscribe();
    assert_ne!(first, second);
}

#[test]
fn unsubscribe_during_notification_is_safe() {
    let mut cell = SignalCell::new(0u32);
    let first = cell.subscribe();
    let second = cell.subscribe();
    let snapshot = cell.write(1);
    assert_eq!(snapshot, vec![first, second]);
    // A callback revokes itself while the caller walks the snapshot: the
    // revocation is a no-op the second time, and later fan-outs skip it.
    assert!(cell.unsubscribe(first));
    assert!(!cell.unsubscribe(first));
    assert!(!cell.is_subscribed(first));
    assert!(cell.is_subscribed(second));
    let next = cell.write(2);
    assert_eq!(next, vec![second]);
    assert_eq!(cell.subscriber_count(), 1);
}
