use icp_telemetry::event::{CodecError, ElectricityEvent};
use icp_telemetry::store::Store;

fn event(id: &str, timestamp: u64, voltage: u64, current: u64, value: u64) -> ElectricityEvent {
    ElectricityEvent { id: id.to_string(), timestamp, voltage, current, value }
}

#[test]
fn new_store_is_empty() {
    let store = Store::open().unwrap();
    assert!(store.get_all().is_empty());
}

#[test]
fn replace_lists_by_ascending_timestamp() {
    let mut store = Store::open().unwrap();
    let batch = vec![event("c", 30, 1, 1, 1), event("a", 10, 1, 1, 1), event("b", 20, 1, 1, 1)];
    assert_eq!(store.clear_and_replace(&batch), Ok(()));
    let all = store.get_all();
    assert_eq!(all, vec![event("a", 10, 1, 1, 1), event("b", 20, 1, 1, 1), event("c", 30, 1, 1, 1)]);
}

#[test]
fn replace_keeps_the_last_record_of_a_timestamp() {
    let mut store = Store::open().unwrap();
    let batch = vec![event("x", 5, 1, 2, 3), event("y", 5, 4, 5, 6)];
    assert_eq!(store.clear_and_replace(&batch), Ok(()));
    let all = store.get_all();
    assert_eq!(all.len(), 1);
    assert_eq!(all[0].id, "y");
    assert_eq!(all[0].timestamp, 5);
}

#[test]
fn replace_drops_every_earlier_record() {
    let mut store = Store::open().unwrap();
    store.clear_and_replace(&vec![event("old1", 1, 1, 1, 1), event("old2", 2, 1, 1, 1)]).unwrap();
    store.clear_and_replace(&vec![event("new", 3, 1, 1, 1)]).unwrap();
    assert_eq!(store.get_all(), vec![event("new", 3, 1, 1, 1)]);
}

#[test]
fn replace_with_empty_batch_empties_the_store() {
    let mut store = Store::open().unwrap();
    store.clear_and_replace(&vec![event("a", 1, 1, 1, 1)]).unwrap();
    store.clear_and_replace(&Vec::new()).unwrap();
    assert!(store.get_all().is_empty());
}

#[test]
fn oversize_record_leaves_the_store_unchanged() {
    let mut store = Store::open().unwrap();
    store.clear_and_replace(&vec![event("kept", 1, 1, 1, 1)]).unwrap();
    let batch = vec![event("fine", 2, 1, 1, 1), event(&"z".repeat(2000), 3, 1, 1, 1)];
    assert_eq!(store.clear_and_replace(&batch), Err(CodecError::EncodingError));
    assert_eq!(store.get_all(), vec![event("kept", 1, 1, 1, 1)]);
}

#[test]
fn largest_timestamps_are_ordered() {
    let mut store = Store::open().unwrap();
    let batch = vec![event("max", u64::MAX, 1, 1, 1), event("zero", 0, 1, 1, 1)];
    store.clear_and_replace(&batch).unwrap();
    let all = store.get_all();
    assert_eq!(all[0].timestamp, 0);
    assert_eq!(all[1].timestamp, u64::MAX);
}

#[test]
fn open_on_fresh_memory_is_empty() {
    let store = Store::open().unwrap();
    assert!(store.get_all().is_empty());
    assert!(store.values().is_empty());
}

#[test]
fn opened_store_takes_a_batch() {
    let mut store = Store::open().unwrap();
    store.clear_and_replace(&vec![event("b", 2, 9, 9, 9), event("a", 1, 8, 8, 8)]).unwrap();
    assert_eq!(store.get_all(), vec![event("a", 1, 8, 8, 8), event("b", 2, 9, 9, 9)]);
}

#[test]
fn values_hold_every_stored_record() {
    let mut store = Store::open().unwrap();
    store.clear_and_replace(&vec![event("b", 2, 1, 1, 1), event("a", 1, 1, 1, 1)]).unwrap();
    let mut ids: Vec<String> = store.values().into_iter().map(|e| e.id).collect();
    ids.sort();
    assert_eq!(ids, vec!["a".to_string(), "b".to_string()]);
}
