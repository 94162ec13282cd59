use icp_telemetry::event::ElectricityEvent;
use icp_telemetry::ingest::{refresh, update_electricity_events, IngestError};
use icp_telemetry::query::get_electricity_events;
use icp_telemetry::store::Store;

fn event(id: &str, timestamp: u64, voltage: u64, current: u64, value: u64) -> ElectricityEvent {
    ElectricityEvent { id: id.to_string(), timestamp, voltage, current, value }
}

fn populated() -> Store {
    let mut store = Store::open().unwrap();
    store.clear_and_replace(&vec![event("a", 1, 1, 1, 1), event("b", 2, 2, 2, 2)]).unwrap();
    store
}

#[test]
fn failed_fetch_leaves_store_unchanged() {
    let mut store = populated();
    let before = get_electricity_events(&store);
    let err = IngestError::FetchError("HTTP status 500".to_string());
    assert_eq!(refresh(&mut store, Err(err.clone())), Err(err));
    assert_eq!(get_electricity_events(&store), before);
}

#[test]
fn failed_parse_leaves_store_unchanged() {
    let mut store = populated();
    let before = get_electricity_events(&store);
    let err = IngestError::ParseError("expected a sequence".to_string());
    assert_eq!(refresh(&mut store, Err(err.clone())), Err(err));
    assert_eq!(get_electricity_events(&store), before);
}

#[test]
fn oversize_record_fails_the_refresh() {
    let mut store = populated();
    let before = get_electricity_events(&store);
    let batch = vec![event("ok", 9, 1, 1, 1), event(&"q".repeat(1500), 10, 1, 1, 1)];
    assert_eq!(refresh(&mut store, Ok(batch)), Err(IngestError::EncodingError));
    assert_eq!(get_electricity_events(&store), before);
}

#[test]
fn refresh_replaces_the_store() {
    let mut store = populated();
    let batch = vec![event("z", 7, 3, 3, 3), event("y", 6, 4, 4, 4)];
    assert_eq!(refresh(&mut store, Ok(batch)), Ok(()));
    assert_eq!(
        get_electricity_events(&store),
        Ok(vec![event("y", 6, 4, 4, 4), event("z", 7, 3, 3, 3)])
    );
}

#[test]
fn refresh_twice_is_refresh_once() {
    let batch = vec![event("z", 7, 3, 3, 3), event("y", 6, 4, 4, 4), event("w", 7, 5, 5, 5)];
    let mut store = populated();
    refresh(&mut store, Ok(batch.clone())).unwrap();
    let once = get_electricity_events(&store);
    refresh(&mut store, Ok(batch)).unwrap();
    assert_eq!(get_electricity_events(&store), once);
    assert_eq!(once, Ok(vec![event("y", 6, 4, 4, 4), event("w", 7, 5, 5, 5)]));
}

#[test]
fn update_reports_the_fetch_failure() {
    let mut store = populated();
    let feed = Err(IngestError::FetchError("Failed to fetch data: timeout".to_string()));
    assert_eq!(
        update_electricity_events(&mut store, feed),
        Err("Failed to fetch data: timeout".to_string())
    );
}

#[test]
fn update_reports_an_oversize_record() {
    let mut store = populated();
    let feed = Ok(vec![event(&"q".repeat(1500), 10, 1, 1, 1)]);
    assert_eq!(
        update_electricity_events(&mut store, feed),
        Err("a record exceeds the maximum encoded size".to_string())
    );
}

#[test]
fn update_succeeds_on_a_good_batch() {
    let mut store = populated();
    assert_eq!(update_electricity_events(&mut store, Ok(vec![event("n", 3, 1, 1, 1)])), Ok(()));
    assert_eq!(get_electricity_events(&store), Ok(vec![event("n", 3, 1, 1, 1)]));
}
