use petracache::storage::value::MAX_RELATIVE_TTL;
use petracache::storage::{calculate_expire_at, calculate_expire_at_from, current_timestamp, StoredValue};
use petracache::StorageError;

#[test]
fn test_encode_decode() {
    let value = StoredValue::with_expire_at(42, 1234567890, b"hello".to_vec());
    let encoded = value.encode();
    let decoded = StoredValue::decode(&encoded).unwrap();

    assert_eq!(decoded.expire_at, 1234567890);
    assert_eq!(decoded.flags, 42);
    assert_eq!(decoded.data, b"hello");
}

#[test]
fn test_never_expire() {
    let value = StoredValue::new(0, 0, b"data".to_vec());
    assert_eq!(value.expire_at, 0);
    assert!(!value.is_expired());
}

#[test]
fn test_relative_ttl() {
    let now = current_timestamp();
    let value = StoredValue::new(0, 60, b"data".to_vec());
    // Allow 1 second tolerance
    assert!(value.expire_at >= now + 59 && value.expire_at <= now + 61);
}

#[test]
fn test_absolute_timestamp() {
    let future = current_timestamp() + 3000000;
    let value = StoredValue::new(0, future, b"data".to_vec());
    assert_eq!(value.expire_at, future);
}

#[test]
fn test_expired() {
    let value = StoredValue::with_expire_at(0, 1, b"data".to_vec());
    assert!(value.is_expired());
}

#[test]
fn test_numeric_value() {
    let mut value = StoredValue::with_expire_at(0, 0, b"123".to_vec());
    assert_eq!(value.as_u64().unwrap(), 123);

    value.set_numeric(456);
    assert_eq!(value.data, b"456");
    assert_eq!(value.as_u64().unwrap(), 456);
}

#[test]
fn test_invalid_numeric() {
    let value = StoredValue::with_expire_at(0, 0, b"hello".to_vec());
    assert!(value.as_u64().is_err());
}

#[test]
fn test_decode_too_short() {
    let result = StoredValue::decode(&[0, 1, 2]);
    assert!(result.is_err());
}

// ---- further cases

#[test]
fn layout_is_little_endian_prefix() {
    let value = StoredValue::with_expire_at(0x0a0b0c0d, 0x01020304, b"xy".to_vec());
    assert_eq!(
        value.encode(),
        vec![4, 3, 2, 1, 0, 0, 0, 0, 0x0d, 0x0c, 0x0b, 0x0a, b'x', b'y']
    );
}

#[test]
fn round_trip_keeps_every_field() {
    for (e, f, d) in [
        (0u64, 0u32, Vec::new()),
        (u64::MAX, u32::MAX, vec![0u8, 13, 10, 255]),
        (7, 1, b"\r\n".to_vec()),
    ] {
        let v = StoredValue::with_expire_at(f, e, d.clone());
        let back = StoredValue::decode(&v.encode()).unwrap();
        assert_eq!((back.expire_at, back.flags, back.data), (e, f, d));
    }
}

#[test]
fn decode_twelve_bytes_is_empty_data() {
    let back = StoredValue::decode(&[1, 0, 0, 0, 0, 0, 0, 0, 2, 0, 0, 0]).unwrap();
    assert_eq!(back.expire_at, 1);
    assert_eq!(back.flags, 2);
    assert!(back.data.is_empty());
    match StoredValue::decode(&[0; 11]) {
        Err(StorageError::Decoding(msg)) => assert_eq!(msg, "Value too short to decode"),
        other => panic!("unexpected: {:?}", other),
    }
}

#[test]
fn exptime_rules() {
    assert_eq!(calculate_expire_at_from(0, 1000), 0);
    assert_eq!(calculate_expire_at_from(1, 1000), 1001);
    assert_eq!(calculate_expire_at_from(MAX_RELATIVE_TTL, 1000), 1000 + 2_592_000);
    assert_eq!(calculate_expire_at_from(MAX_RELATIVE_TTL + 1, 1000), 2_592_001);
    assert_eq!(calculate_expire_at_from(10, u64::MAX - 3), u64::MAX);
    assert_eq!(calculate_expire_at(0), 0);
    assert_eq!(calculate_expire_at(5_000_000), 5_000_000);
}

#[test]
fn expiry_at_an_instant() {
    let v = StoredValue::with_expire_at(0, 100, Vec::new());
    assert!(!v.is_expired_at(99));
    assert!(v.is_expired_at(100));
    assert!(v.is_expired_at(101));
    let forever = StoredValue::with_expire_at(0, 0, Vec::new());
    assert!(!forever.is_expired_at(u64::MAX));
}

#[test]
fn touch_moves_expiration() {
    let mut v = StoredValue::with_expire_at(3, 0, b"d".to_vec());
    v.touch(4_000_000);
    assert_eq!(v.expire_at, 4_000_000);
    assert_eq!(v.flags, 3);
    assert_eq!(v.data, b"d".to_vec());
}

#[test]
fn numeric_text_forms() {
    let n = |d: &[u8]| StoredValue::with_expire_at(0, 0, d.to_vec()).as_u64();
    assert_eq!(n(b" 42 \r\n").unwrap(), 42);
    assert_eq!(n(b"+7").unwrap(), 7);
    assert_eq!(n(b"18446744073709551615").unwrap(), u64::MAX);
    assert_eq!(n(b"18446744073709551616"), Err(StorageError::NotNumeric));
    assert_eq!(n(b""), Err(StorageError::NotNumeric));
    assert_eq!(n(b"-1"), Err(StorageError::NotNumeric));
    assert_eq!(n(b"1 2"), Err(StorageError::NotNumeric));
    let mut v = StoredValue::with_expire_at(0, 0, Vec::new());
    v.set_numeric(0);
    assert_eq!(v.data, b"0".to_vec());
    v.set_numeric(u64::MAX);
    assert_eq!(v.data, b"18446744073709551615".to_vec());
}
