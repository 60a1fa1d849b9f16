use bredis::errors::DatabaseError;
use bredis::storages::key::prefix_end;
use bredis::storages::bredis::Bredis;
use bredis::storages::storage::Storage;
use bredis::storages::transaction;
use bredis::storages::transaction::{Change, Listing};
use bredis::storages::value::{StorageValue, ValueType};
use std::collections::BTreeMap;

/// An ordered engine in memory, driven as a backend drives its engine: read,
/// decide, apply the change.
struct Engine {
    blobs: BTreeMap<Vec<u8>, Vec<u8>>,
}

impl Engine {
    fn open() -> Engine {
        let mut db = Engine { blobs: BTreeMap::new() };
        db.set(b"key1", &text(b"value1", -1), 0).unwrap();
        db.set(b"key2", &text(b"value2", -1), 0).unwrap();
        db.set(b"prefix_key1", &text(b"value3", -1), 0).unwrap();
        db.set(b"prefix_key2", &text(b"value4", -1), 0).unwrap();
        db.set(b"value_num", &number(b"1", -1), 0).unwrap();
        db
    }

    fn apply(&mut self, key: &[u8], change: Change) {
        match change {
            Change::Keep => {}
            Change::Put(blob) => {
                self.blobs.insert(key.to_vec(), blob);
            }
            Change::Delete => {
                self.blobs.remove(key);
            }
        }
    }

    fn read(&self, key: &[u8]) -> Option<Vec<u8>> {
        self.blobs.get(key).cloned()
    }

    fn get(&mut self, key: &[u8], now: i64) -> Result<Option<StorageValue>, DatabaseError> {
        let out = transaction::get_at(self.read(key), now);
        self.apply(key, out.change);
        out.result
    }

    fn get_ttl(&mut self, key: &[u8], now: i64) -> Result<i64, DatabaseError> {
        let out = transaction::get_ttl_at(key, self.read(key), now);
        self.apply(key, out.change);
        out.result
    }

    fn update_ttl(&mut self, key: &[u8], ttl: i64, now: i64) -> Result<(), DatabaseError> {
        let out = transaction::update_ttl_at(key, self.read(key), ttl, now);
        self.apply(key, out.change);
        out.result
    }

    fn set(&mut self, key: &[u8], value: &StorageValue, now: i64) -> Result<(), DatabaseError> {
        let out = transaction::set_at(value, now);
        self.apply(key, out.change);
        out.result
    }

    fn increment(
        &mut self,
        key: &[u8],
        value: i64,
        default_value: Option<i64>,
    ) -> Result<StorageValue, DatabaseError> {
        let out = transaction::increment(key, self.read(key), value, default_value);
        self.apply(key, out.change);
        out.result
    }

    fn decrement(
        &mut self,
        key: &[u8],
        value: i64,
        default_value: Option<i64>,
    ) -> Result<StorageValue, DatabaseError> {
        let out = transaction::decrement(key, self.read(key), value, default_value);
        self.apply(key, out.change);
        out.result
    }

    fn delete(&mut self, key: &[u8]) {
        self.blobs.remove(key);
    }

    /// What a cursor that seeks to the prefix yields: every pair from the
    /// prefix on, in key order.
    fn cursor(&self, prefix: &[u8]) -> Vec<(Vec<u8>, Vec<u8>)> {
        self.blobs
            .range(prefix.to_vec()..)
            .map(|(k, v)| (k.clone(), v.clone()))
            .collect()
    }

    /// What a range scan of the prefix yields.
    fn range(&self, prefix: &[u8]) -> Vec<(Vec<u8>, Vec<u8>)> {
        self.blobs
            .range(prefix.to_vec()..prefix_end(prefix))
            .map(|(k, v)| (k.clone(), v.clone()))
            .collect()
    }

    fn finish(&mut self, listing: Listing) -> Result<Vec<String>, DatabaseError> {
        for key in &listing.expired {
            self.blobs.remove(key);
        }
        listing.result
    }

    fn get_all_keys(&mut self, prefix: &[u8], now: i64) -> Result<Vec<String>, DatabaseError> {
        let listing = transaction::get_all_keys_at(&self.cursor(prefix), prefix, now);
        self.finish(listing)
    }

    fn get_all_keys_by_range(
        &mut self,
        prefix: &[u8],
        now: i64,
    ) -> Result<Vec<String>, DatabaseError> {
        let listing = transaction::get_all_keys_at(&self.range(prefix), prefix, now);
        self.finish(listing)
    }

    fn delete_prefix(&mut self, prefix: &[u8]) {
        let end = prefix_end(prefix);
        self.blobs.retain(|k, _| !(prefix <= &k[..] && k[..] < end[..]));
    }
}

fn text(value: &[u8], ttl: i64) -> StorageValue {
    StorageValue {
        value_type: ValueType::String,
        ttl,
        value: value.to_vec(),
    }
}

fn number(value: &[u8], ttl: i64) -> StorageValue {
    StorageValue {
        value_type: ValueType::Integer,
        ttl,
        value: value.to_vec(),
    }
}

const NOW: i64 = 1_700_000_000;

#[test]
fn database_test_get_all_keys() {
    let mut db = Engine::open();
    let keys = db.get_all_keys(b"prefix_", NOW).unwrap();
    assert_eq!(keys, vec!["prefix_key1", "prefix_key2"]);
    let keys = db.get_all_keys_by_range(b"prefix_", NOW).unwrap();
    assert_eq!(keys, vec!["prefix_key1", "prefix_key2"]);
}

#[test]
fn engine_get_all_keys_stops_where_the_prefix_ends() {
    let db = Engine::open();
    // the cursor goes on to value_num, which the listing must not show
    let cursor = db.cursor(b"prefix_");
    assert_eq!(cursor.len(), 3);
    let listing = transaction::get_all_keys_at(&cursor, b"prefix_", NOW);
    assert_eq!(listing.result.unwrap().len(), 2);
    assert!(listing.expired.is_empty());
}

#[test]
fn engine_get_all_keys_ignores_what_follows_the_run() {
    let entries = vec![
        (b"a1".to_vec(), text(b"v", -1).to_binary()),
        (b"b1".to_vec(), vec![1, 2, 3]),
        (b"a2".to_vec(), text(b"v", -1).to_binary()),
    ];
    let listing = transaction::get_all_keys_at(&entries, b"a", NOW);
    assert_eq!(listing.result.unwrap(), vec!["a1"]);
}

#[test]
fn engine_get_ttl() {
    let mut db = Engine::open();
    db.set(b"my_key", &text(b"my_value", 1000), NOW).unwrap();
    assert_eq!(db.get_ttl(b"my_key", NOW).unwrap(), 1000);
    assert!(db.get_ttl(b"non_existent_key", NOW).is_err());
}

#[test]
fn engine_get_ttl_no_ttl() {
    let mut db = Engine::open();
    db.set(b"my_key", &text(b"my_value", -1), NOW).unwrap();
    assert_eq!(db.get_ttl(b"my_key", NOW).unwrap(), -1);
}

#[test]
fn engine_get_ttl_expired() {
    let mut db = Engine::open();
    db.set(b"my_key", &text(b"my_value", 1), NOW).unwrap();
    match db.get_ttl(b"my_key", NOW + 2) {
        Err(DatabaseError::ValueNotFound(key)) => assert_eq!(key, "my_key"),
        other => panic!("unexpected result: {:?}", other),
    }
    assert!(db.read(b"my_key").is_none(), "the expired entry is removed");
}

#[test]
fn engine_update_ttl() {
    let mut db = Engine::open();
    db.set(b"my_key", &text(b"my_value", 1000), NOW).unwrap();
    assert_eq!(db.get_ttl(b"my_key", NOW).unwrap(), 1000);
    db.update_ttl(b"my_key", 2000, NOW).unwrap();
    assert_eq!(db.get_ttl(b"my_key", NOW).unwrap(), 2000);
    db.update_ttl(b"my_key", -1, NOW).unwrap();
    assert_eq!(db.get_ttl(b"my_key", NOW).unwrap(), -1);
    assert!(matches!(
        db.update_ttl(b"absent", 5, NOW),
        Err(DatabaseError::ValueNotFound(_))
    ));
    assert!(db.read(b"absent").is_none());
}

#[test]
fn engine_set() {
    let mut db = Engine::open();
    db.set(b"my_key", &text(b"my_value", -1), NOW).unwrap();
    let stored = StorageValue::from_binary(&db.read(b"my_key").unwrap());
    assert_eq!(stored.value_type, ValueType::String);
    assert_eq!(stored.value, b"my_value");
    assert_eq!(stored.ttl, -1);
    let back = db.get(b"my_key", NOW).unwrap().unwrap();
    assert_eq!(back.value, b"my_value");
}

#[test]
fn engine_set_stores_the_instant_of_expiry() {
    let mut db = Engine::open();
    db.set(b"my_key", &text(b"my_value", 30), NOW).unwrap();
    let stored = StorageValue::from_binary(&db.read(b"my_key").unwrap());
    assert_eq!(stored.ttl, NOW + 30);
}

#[test]
fn engine_delete() {
    let mut db = Engine::open();
    db.set(b"my_key", &text(b"my_value", -1), NOW).unwrap();
    db.delete(b"my_key");
    assert!(db.get(b"my_key", NOW).unwrap().is_none());
}

#[test]
fn engine_delete_prefix() {
    let mut db = Engine::open();
    db.delete_prefix(b"prefix_");
    let keys = db.get_all_keys(b"", NOW).unwrap();
    assert_eq!(keys, vec!["key1", "key2", "value_num"]);
}

#[test]
fn database_test_ttl() {
    let mut db = Engine::open();
    db.set(b"my_key", &text(b"my_value", 1), NOW).unwrap();
    let value = db.get(b"my_key", NOW).unwrap().unwrap();
    assert_eq!(value.value_type, ValueType::String);
    assert_eq!(value.value, b"my_value");
    assert_eq!(value.ttl, 1);
    assert!(db.get(b"my_key", NOW + 2).unwrap().is_none());
    assert!(db.read(b"my_key").is_none(), "the expired entry is removed");
}

#[test]
fn engine_scan_removes_expired_entries() {
    let mut db = Engine::open();
    db.set(b"prefix_gone", &text(b"v", 1), NOW).unwrap();
    db.set(b"other_gone", &text(b"v", 1), NOW).unwrap();
    let keys = db.get_all_keys(b"prefix_", NOW + 5).unwrap();
    assert_eq!(keys, vec!["prefix_key1", "prefix_key2"]);
    assert!(db.read(b"prefix_gone").is_none());
    assert!(db.read(b"other_gone").is_some());
}

#[test]
fn database_test_integer_value() {
    let mut db = Engine::open();
    db.set(b"my_key", &number(b"123", -1), NOW).unwrap();
    let value = db.get(b"my_key", NOW).unwrap().unwrap();
    assert_eq!(value.value_type, ValueType::Integer);
    assert_eq!(value.value, b"123");
    assert_eq!(value.ttl, -1);
    assert_eq!(value.get_integer_value().unwrap(), 123);
}

#[test]
fn database_test_increment() {
    let mut db = Engine::open();
    assert_eq!(db.increment(b"value_num", 1, None).unwrap().value, b"2");
    assert_eq!(db.increment(b"value_num", 2, None).unwrap().value, b"4");
}

#[test]
fn database_test_default_increment() {
    let mut db = Engine::open();
    assert_eq!(db.increment(b"value_num", 1, Some(10)).unwrap().value, b"2");
    assert_eq!(db.increment(b"value_num", 2, Some(10)).unwrap().value, b"4");
}

#[test]
fn database_test_default_exist_increment() {
    let mut db = Engine::open();
    assert_eq!(db.increment(b"value_num", 1, Some(10)).unwrap().value, b"2");
    assert_eq!(db.increment(b"value_num", 2, Some(10)).unwrap().value, b"4");
}

#[test]
fn database_test_decrement() {
    let mut db = Engine::open();
    assert_eq!(db.decrement(b"value_num", 1, None).unwrap().value, b"0");
    assert_eq!(db.decrement(b"value_num", 2, None).unwrap().value, b"-2");
}

#[test]
fn database_test_default_decrement() {
    let mut db = Engine::open();
    assert_eq!(db.decrement(b"new_value_num", 1, Some(10)).unwrap().value, b"9");
    assert_eq!(db.decrement(b"new_value_num", 2, Some(10)).unwrap().value, b"7");
}

#[test]
fn database_test_default_exist_decrement() {
    let mut db = Engine::open();
    assert_eq!(db.decrement(b"value_num", 1, Some(10)).unwrap().value, b"0");
    assert_eq!(db.decrement(b"value_num", 2, Some(10)).unwrap().value, b"-2");
}

#[test]
fn engine_increment_with_default_starts_there_and_goes_on() {
    let mut db = Engine::open();
    assert_eq!(db.increment(b"n", 1, Some(10)).unwrap().value, b"11");
    assert_eq!(db.increment(b"n", 2, Some(10)).unwrap().value, b"13");
    let stored = StorageValue::from_binary(&db.read(b"n").unwrap());
    assert_eq!(stored.value_type, ValueType::Integer);
    assert_eq!(stored.ttl, -1);
    assert_eq!(stored.value, b"13");
}

#[test]
fn engine_increment_failures_write_nothing() {
    let mut db = Engine::open();
    let out = transaction::increment(b"missing_key", None, 1, None);
    assert!(matches!(out.change, Change::Keep));
    match out.result {
        Err(DatabaseError::ValueNotFound(key)) => assert_eq!(key, "missing_key"),
        other => panic!("unexpected result: {:?}", other),
    }
    let out = transaction::increment(b"key1", db.read(b"key1"), 1, Some(3));
    assert!(matches!(out.change, Change::Keep));
    assert!(matches!(out.result, Err(DatabaseError::InvalidValueType(_))));
    db.set(b"bad", &number(b"1e3", -1), NOW).unwrap();
    let out = transaction::decrement(b"bad", db.read(b"bad"), 1, None);
    assert!(matches!(out.change, Change::Keep));
    assert!(matches!(out.result, Err(DatabaseError::InternalError(_))));
}

#[test]
fn engine_increment_keeps_the_ttl() {
    let mut db = Engine::open();
    db.set(b"n", &number(b"5", 100), NOW).unwrap();
    let written = db.increment(b"n", 1, None).unwrap();
    assert_eq!(written.ttl, NOW + 100);
    assert_eq!(db.get_ttl(b"n", NOW + 40).unwrap(), 60);
}

#[test]
fn database_test_string_value() {
    let mut db = Engine::open();
    db.set(b"my_key", &text(b"my_value", -1), NOW).unwrap();
    let value = db.get(b"my_key", NOW).unwrap().unwrap();
    assert_eq!(value.value_type, ValueType::String);
    assert_eq!(value.value, b"my_value");
    assert_eq!(value.ttl, -1);
}

#[test]
fn a_blob_that_is_no_entry_is_an_internal_error_and_nothing_is_written() {
    let junk = Some(vec![9u8, 9, 9]);
    let out = transaction::get_at(junk.clone(), NOW);
    assert!(matches!(out.change, Change::Keep));
    match out.result {
        Err(DatabaseError::InternalError(message)) => {
            assert_eq!(message, "Failed to decode stored value")
        }
        other => panic!("unexpected result: {:?}", other),
    }
    let out = transaction::get_ttl_at(b"k", junk.clone(), NOW);
    assert!(matches!(out.change, Change::Keep));
    assert!(matches!(out.result, Err(DatabaseError::InternalError(_))));
    let out = transaction::update_ttl_at(b"k", junk.clone(), 5, NOW);
    assert!(matches!(out.change, Change::Keep));
    assert!(matches!(out.result, Err(DatabaseError::InternalError(_))));
    let out = transaction::increment(b"k", junk, 1, Some(1));
    assert!(matches!(out.change, Change::Keep));
    assert!(matches!(out.result, Err(DatabaseError::InternalError(_))));
}

#[test]
fn a_scan_that_meets_a_blob_which_is_no_entry_fails_and_removes_nothing() {
    let entries = vec![
        (b"a1".to_vec(), text(b"v", 1).to_binary()),
        (b"a2".to_vec(), vec![0u8; 5]),
    ];
    let listing = transaction::get_all_keys_at(&entries, b"a", NOW);
    assert!(listing.expired.is_empty());
    match listing.result {
        Err(DatabaseError::InternalError(message)) => {
            assert_eq!(message, "Failed to decode stored value")
        }
        other => panic!("unexpected result: {:?}", other),
    }
}

#[test]
fn a_scan_that_meets_a_key_which_is_no_text_fails_but_removes_the_expired() {
    let entries = vec![
        (b"a1".to_vec(), text(b"v", 1).to_binary()),
        (vec![b'a', 0xfe], text(b"v", -1).to_binary()),
        (b"az".to_vec(), text(b"v", -1).to_binary()),
    ];
    let listing = transaction::get_all_keys_at(&entries, b"a", NOW);
    assert_eq!(listing.expired, vec![b"a1".to_vec()]);
    match listing.result {
        Err(DatabaseError::InternalError(message)) => assert_eq!(message, "Key is not valid UTF-8"),
        other => panic!("unexpected result: {:?}", other),
    }
}

#[test]
fn an_expired_key_that_is_no_text_does_not_fail_the_scan() {
    let entries = vec![
        (vec![b'a', 0xfe], text(b"v", 1).to_binary()),
        (b"az".to_vec(), text(b"v", -1).to_binary()),
    ];
    let listing = transaction::get_all_keys_at(&entries, b"a", NOW);
    assert_eq!(listing.expired, vec![vec![b'a', 0xfe]]);
    assert_eq!(listing.result.unwrap(), vec!["az"]);
}

#[test]
fn an_empty_scan() {
    let listing = transaction::get_all_keys_at(&Vec::new(), b"a", NOW);
    assert!(listing.expired.is_empty());
    assert!(listing.result.unwrap().is_empty());
}

#[test]
fn not_found_shows_a_key_that_is_no_text_with_replacement_characters() {
    let out = transaction::get_ttl_at(&[b'k', 0xff, b'z'], None, NOW);
    match out.result {
        Err(DatabaseError::ValueNotFound(key)) => assert_eq!(key, "k\u{fffd}z"),
        other => panic!("unexpected result: {:?}", other),
    }
}

#[test]
fn the_engine_and_the_store_in_memory_agree() {
    let mut engine = Engine { blobs: BTreeMap::new() };
    let mut memory = Bredis::open();
    let keys: [&[u8]; 4] = [b"a", b"ab", b"b", b"n"];
    let mut now = 10;
    for round in 0..40i64 {
        let key = keys[(round % 4) as usize];
        now += round % 3;
        match round % 7 {
            0 => {
                let value = text(b"v", round % 5 - 1);
                engine.set(key, &value, now).unwrap();
                memory.set_at(key, &value, now).unwrap();
            }
            1 => {
                let a = engine.increment(key, round, Some(round)).map(|v| (v.ttl, v.value));
                let b = memory.increment(key, round, Some(round)).map(|v| (v.ttl, v.value));
                assert_eq!(a.ok(), b.ok());
            }
            2 => {
                let a = engine.get(key, now).unwrap().map(|v| (v.ttl, v.value));
                let b = memory.get_at(key, now).unwrap().map(|v| (v.ttl, v.value));
                assert_eq!(a, b);
            }
            3 => {
                assert_eq!(engine.get_ttl(key, now).ok(), memory.get_ttl_at(key, now).ok());
            }
            4 => {
                assert_eq!(
                    engine.update_ttl(key, round % 4 - 1, now).is_ok(),
                    memory.update_ttl_at(key, round % 4 - 1, now).is_ok()
                );
            }
            5 => {
                let mut a = engine.get_all_keys(b"a", now).unwrap();
                let mut b = memory.get_all_keys_at(b"a", now).unwrap();
                a.sort();
                b.sort();
                assert_eq!(a, b);
            }
            _ => {
                let a = engine.decrement(key, 1, None).map(|v| (v.ttl, v.value));
                let b = memory.decrement(key, 1, None).map(|v| (v.ttl, v.value));
                assert_eq!(a.ok(), b.ok());
            }
        }
    }
    engine.delete_prefix(b"a");
    memory.delete_prefix(b"a").unwrap();
    let mut a = engine.get_all_keys(b"", now).unwrap();
    let mut b = memory.get_all_keys_at(b"", now).unwrap();
    a.sort();
    b.sort();
    assert_eq!(a, b);
}

#[test]
fn decisions_that_read_the_clock() {
    let stored = StorageValue::from_binary(&match transaction::set(&text(b"v", 1000)).change {
        Change::Put(blob) => blob,
        other => panic!("unexpected change: {:?}", other),
    });
    assert!(stored.ttl > 1_600_000_000 + 1000);
    let raw = Some(text(b"v", stored.ttl).to_binary());
    let left = transaction::get_ttl(b"k", raw.clone()).result.unwrap();
    assert!(995 <= left && left <= 1000);
    let shown = transaction::get(raw.clone()).result.unwrap().unwrap();
    assert!(995 <= shown.ttl && shown.ttl <= 1000);
    let gone = Some(text(b"v", 1).to_binary());
    let out = transaction::get(gone.clone());
    assert!(out.result.unwrap().is_none());
    assert!(matches!(out.change, Change::Delete));
    match transaction::update_ttl(b"k", raw, 50).change {
        Change::Put(blob) => {
            let next = StorageValue::from_binary(&blob);
            assert!(next.ttl > 1_600_000_000 && next.ttl < stored.ttl);
        }
        other => panic!("unexpected change: {:?}", other),
    }
    let entries = vec![
        (b"a".to_vec(), gone.unwrap()),
        (b"b".to_vec(), text(b"v", -1).to_binary()),
    ];
    let listing = transaction::get_all_keys(&entries, b"");
    assert_eq!(listing.expired, vec![b"a".to_vec()]);
    assert_eq!(listing.result.unwrap(), vec!["b"]);
}
