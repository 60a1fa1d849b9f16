use bredis::errors::DatabaseError;
use bredis::storages::counter::{count, step};
use bredis::storages::value::{StorageValue, ValueType};

fn number(value: &[u8], ttl: i64) -> StorageValue {
    StorageValue {
        value_type: ValueType::Integer,
        ttl,
        value: value.to_vec(),
    }
}

#[test]
fn step_adds_or_subtracts_and_wraps() {
    assert_eq!(step(1, 2, true), 3);
    assert_eq!(step(1, 2, false), -1);
    assert_eq!(step(i64::MAX, 1, true), i64::MIN);
    assert_eq!(step(i64::MIN, 1, false), i64::MAX);
    assert_eq!(step(0, i64::MIN, false), i64::MIN);
}

#[test]
fn count_moves_what_is_there_and_keeps_its_ttl() {
    let next = count(Some(number(b"41", 777)), b"k", 1, Some(1000), true).unwrap();
    assert_eq!(next.value_type, ValueType::Integer);
    assert_eq!(next.value, b"42");
    assert_eq!(next.ttl, 777);
    let next = count(Some(number(b"+007", -1)), b"k", 10, None, false).unwrap();
    assert_eq!(next.value, b"-3");
}

#[test]
fn count_starts_from_the_default_without_expiry() {
    let next = count(None, b"k", 5, Some(-2), false).unwrap();
    assert_eq!(next.value_type, ValueType::Integer);
    assert_eq!(next.value, b"-7");
    assert_eq!(next.ttl, -1);
}

#[test]
fn count_fails_as_the_entry_demands() {
    match count(None, b"k", 1, None, true) {
        Err(DatabaseError::ValueNotFound(key)) => assert_eq!(key, "k"),
        other => panic!("unexpected result: {:?}", other),
    }
    let text = StorageValue {
        value_type: ValueType::String,
        ttl: -1,
        value: b"1".to_vec(),
    };
    assert!(matches!(
        count(Some(text), b"k", 1, Some(1), true),
        Err(DatabaseError::InvalidValueType(_))
    ));
    assert!(matches!(
        count(Some(number(b"", -1)), b"k", 1, Some(1), true),
        Err(DatabaseError::InternalError(_))
    ));
}
