use icp_telemetry::event::{CodecError, ElectricityEvent, MAX_VALUE_SIZE};

fn event(id: &str, timestamp: u64, voltage: u64, current: u64, value: u64) -> ElectricityEvent {
    ElectricityEvent { id: id.to_string(), timestamp, voltage, current, value }
}

#[test]
fn round_trip_gives_the_record_back() {
    let e = event("meter-7", 1_700_000_000, 230, 12, 42);
    let bytes = e.to_bytes().unwrap();
    assert!(!bytes.is_empty());
    assert!(bytes.len() <= MAX_VALUE_SIZE);
    assert_eq!(ElectricityEvent::from_bytes(&bytes), Ok(e));
}

#[test]
fn round_trip_keeps_extreme_values() {
    let e = event("", u64::MAX, 0, u64::MAX, 1);
    let bytes = e.to_bytes().unwrap();
    assert_eq!(ElectricityEvent::from_bytes(&bytes), Ok(e));
}

#[test]
fn encoding_is_deterministic() {
    let a = event("a", 1, 2, 3, 4);
    let b = event("a", 1, 2, 3, 4);
    assert_eq!(a.to_bytes().unwrap(), b.to_bytes().unwrap());
    let c = event("a", 1, 2, 3, 5);
    assert_ne!(a.to_bytes().unwrap(), c.to_bytes().unwrap());
}

#[test]
fn oversize_record_is_rejected() {
    let e = event(&"x".repeat(2000), 1, 2, 3, 4);
    assert_eq!(e.to_bytes(), Err(CodecError::EncodingError));
}

#[test]
fn record_just_under_the_bound_is_accepted() {
    let e = event(&"x".repeat(900), 1, 2, 3, 4);
    let bytes = e.to_bytes().unwrap();
    assert!(bytes.len() <= MAX_VALUE_SIZE);
    assert_eq!(ElectricityEvent::from_bytes(&bytes), Ok(e));
}

#[test]
fn malformed_bytes_are_rejected() {
    assert_eq!(ElectricityEvent::from_bytes(&vec![1, 2, 3]), Err(CodecError::DecodingError));
    assert_eq!(ElectricityEvent::from_bytes(&Vec::new()), Err(CodecError::DecodingError));
}

#[test]
fn truncated_encoding_is_rejected() {
    let bytes = event("abc", 1, 2, 3, 4).to_bytes().unwrap();
    let cut = bytes[..bytes.len() - 1].to_vec();
    assert_eq!(ElectricityEvent::from_bytes(&cut), Err(CodecError::DecodingError));
}

#[test]
fn non_canonical_encoding_is_rejected() {
    let bytes = event("abc", 1, 2, 3, 4).to_bytes().unwrap();
    let at = bytes.len() - 32 - 3 - 1;
    assert_eq!(bytes[at], 3);
    let mut padded = bytes[..at].to_vec();
    padded.extend_from_slice(&[0x83, 0x00]);
    padded.extend_from_slice(&bytes[at + 1..]);
    assert_eq!(ElectricityEvent::from_bytes(&padded), Err(CodecError::DecodingError));
}
