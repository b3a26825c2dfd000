use reactive_store::ReactiveError;
use reactive_store::keyed::KeyedList;

#[test]
fn insert_and_read() {
    let mut list: KeyedList<usize> = KeyedList::new();
    for key in 0..5u64 {
        assert_eq!(list.insert(key, key as usize + 1), Ok(()));
    }
    assert_eq!(list.len(), 5);
    assert_eq!(list.read_by_key(0), Some(&1));
    assert_eq!(list.read_by_key(4), Some(&5));
    assert_eq!(list.read_by_key(9), None);
}

#[test]
fn duplicate_key_is_rejected() {
    let mut list: KeyedList<u32> = KeyedList::new();
    assert_eq!(list.insert(3, 30), Ok(()));
    assert_eq!(list.insert(3, 99), Err(ReactiveError::DuplicateKey));
    // The rejected insert left the list untouched.
    assert_eq!(list.len(), 1);
    assert_eq!(list.read_by_key(3), Some(&30));
}

#[test]
fn remove_keeps_the_other_identities() {
    let mut list: KeyedList<usize> = KeyedList::new();
    for key in 0..5u64 {
        assert_eq!(list.insert(key, key as usize), Ok(()));
    }
    let ids_before: Vec<Option<u64>> = (0..5u64).map(|k| list.id_of_key(k)).collect();
    assert!(list.remove_by_key(2));
    assert_eq!(list.len(), 4);
    assert_eq!(list.id_of_key(2), None);
    for k in [0u64, 1, 3, 4] {
        assert_eq!(list.id_of_key(k), ids_before[k as usize]);
        assert_eq!(list.read_by_key(k), Some(&(k as usize)));
    }
}

#[test]
fn removing_an_absent_key_reports_false() {
    let mut list: KeyedList<u32> = KeyedList::new();
    assert_eq!(list.insert(1, 1), Ok(()));
    assert!(!list.remove_by_key(8));
    assert_eq!(list.len(), 1);
}

#[test]
fn identities_are_never_reused() {
    let mut list: KeyedList<u32> = KeyedList::new();
    assert_eq!(list.insert(10, 0), Ok(()));
    assert_eq!(list.insert(11, 0), Ok(()));
    let removed_id = list.id_of_key(10);
    assert!(list.remove_by_key(10));
    assert_eq!(list.insert(10, 0), Ok(()));
    // The re-inserted key is a new entry, not the old one resurrected.
    assert_ne!(list.id_of_key(10), removed_id);
}

#[test]
fn entry_subscribers_are_notified() {
    let mut list: KeyedList<u32> = KeyedList::new();
    assert_eq!(list.insert(1, 0), Ok(()));
    assert_eq!(list.insert(2, 0), Ok(()));
    let token = list.subscribe_by_key(1).expect("entry 1 exists");
    // The write to entry 1 notifies its subscriber; entry 2's write
    // notifies nobody, and the subscription does not leak across entries.
    assert_eq!(list.write_by_key(1, 5), Some(vec![token]));
    assert_eq!(list.write_by_key(2, 7), Some(vec![]));
    assert_eq!(list.subscribe_by_key(9), None);
}

#[test]
fn write_by_key_touches_one_entry() {
    let mut list: KeyedList<u32> = KeyedList::new();
    for key in 0..3u64 {
        assert_eq!(list.insert(key, 0), Ok(()));
    }
    let notify = list.write_by_key(1, 42);
    // The fresh per-entry cell has no subscribers yet.
    assert_eq!(notify, Some(vec![]));
    assert_eq!(list.read_by_key(1), Some(&42));
    assert_eq!(list.read_by_key(0), Some(&0));
    assert_eq!(list.read_by_key(2), Some(&0));
    assert_eq!(list.write_by_key(9, 1), None);
}
