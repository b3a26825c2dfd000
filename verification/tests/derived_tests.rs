use reactive_store::compute::Doubling;
use reactive_store::derived::Derived;
use reactive_store::signal::SignalCell;

#[test]
fn count_three_increments_and_double() {
    let mut count = SignalCell::new(0u32);
    for _ in 0..3 {
        let next = *count.read() + 1;
        let _ = count.write(next);
    }
    assert_eq!(*count.read(), 3);
    let mut double = Derived::new(Doubling);
    // No explicit recompute call: the read refreshes lazily on demand.
    assert_eq!(double.read(&count), 6);
}

#[test]
fn memo_serves_repeated_reads() {
    let mut count = SignalCell::new(21u32);
    let mut double = Derived::new(Doubling);
    assert_eq!(double.read(&count), 42);
    assert_eq!(double.read(&count), 42);
    assert_eq!(*count.read(), 21);
}

#[test]
fn dependency_write_invalidates_memo() {
    let mut count = SignalCell::new(1u32);
    let mut double = Derived::new(Doubling);
    assert_eq!(double.read(&count), 2);
    let _ = count.write(10);
    assert_eq!(double.read(&count), 20);
    let _ = count.write(0);
    let _ = count.write(4);
    assert_eq!(double.read(&count), 8);
}

#[test]
fn refresh_then_peek() {
    let mut count = SignalCell::new(3u32);
    let mut double = Derived::new(Doubling);
    double.refresh(&count);
    assert_eq!(*double.peek(), 6);
}
