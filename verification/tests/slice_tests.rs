use reactive_store::global_state::CountLens;
use reactive_store::global_state::GlobalState;
use reactive_store::global_state::NameLens;
use reactive_store::signal::SignalCell;

#[test]
fn count_write_leaves_name_alone() {
    let mut state = SignalCell::new(GlobalState::default());
    let _ = state.write_through(&CountLens, 5);
    assert_eq!(*state.read_through(&CountLens), 5);
    assert_eq!(state.read_through(&NameLens).as_str(), "");
}

#[test]
fn name_write_leaves_count_alone() {
    let mut state = SignalCell::new(GlobalState::default());
    let _ = state.write_through(&CountLens, 3);
    let _ = state.write_through(&NameLens, String::from("hello"));
    assert_eq!(state.read_through(&NameLens).as_str(), "hello");
    assert_eq!(*state.read_through(&CountLens), 3);
}

#[test]
fn increment_through_count_slice() {
    let mut state = SignalCell::new(GlobalState::default());
    for _ in 0..4 {
        let next = *state.read_through(&CountLens) + 1;
        let _ = state.write_through(&CountLens, next);
    }
    assert_eq!(*state.read_through(&CountLens), 4);
}

#[test]
fn slice_write_notifies_container_subscribers() {
    let mut state = SignalCell::new(GlobalState::default());
    let token = state.subscribe();
    let notify = state.write_through(&NameLens, String::from("n"));
    assert_eq!(notify, vec![token]);
}

#[test]
fn slice_reads_container_at_call_time() {
    let mut state = SignalCell::new(GlobalState::default());
    let _ = state.write(GlobalState { count: 9, name: String::from("direct") });
    assert_eq!(*state.read_through(&CountLens), 9);
    assert_eq!(state.read_through(&NameLens).as_str(), "direct");
}
