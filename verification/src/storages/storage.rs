//! The storage contract: what every backend does, stated over what it holds.
//!
//! A store is a map from keys to entries at rest. Each operation is a pair of
//! functions on that map: the map that the operation leaves behind, and what
//! it hands back. Expired entries are not swept: a read that meets one removes
//! it and treats it as absent.

use crate::clock::unix_now;
use crate::errors::{lift, DatabaseError, ErrorView};
use crate::storages::decimal::format_decimal;
use crate::storages::key::{has_prefix, in_prefix_range};
use crate::storages::ttl::{is_live, remaining_ttl, stored_ttl, NO_EXPIRY};
use crate::storages::value::{integer_value, Entry, StorageValue, ValueType};
use crate::text::lossy_text;
use vstd::prelude::*;
use vstd::utf8::*;

verus! {

/// What a store holds: its entries at rest, by key.
pub type Contents = Map<Seq<u8>, Entry>;

/// The entry under `key`, if there is one.
pub open spec fn entry_at(s: Contents, key: Seq<u8>) -> Option<Entry> {
    if s.contains_key(key) {
        Some(s[key])
    } else {
        None
    }
}

/// The failure for a key that is not there.
pub open spec fn not_found(key: Seq<u8>) -> ErrorView {
    ErrorView::ValueNotFound(lossy_text(key))
}

/// An entry as a read at `now` shows it: with the seconds that remain in
/// place of the instant of expiry, or nothing once it has expired.
pub open spec fn shown(e: Entry, now: i64) -> Option<Entry> {
    match remaining_ttl(e.ttl, now) {
        Some(left) => Some(Entry { ttl: left, ..e }),
        None => None,
    }
}

/// What a read at `now` hands back of what lies under a key.
pub open spec fn read_value(current: Option<Entry>, now: i64) -> Option<Entry> {
    match current {
        Some(e) => shown(e, now),
        None => None,
    }
}

/// Whether a read at `now` leaves what lies under a key in place: it removes
/// an entry that has expired.
pub open spec fn read_keeps(current: Option<Entry>, now: i64) -> bool {
    match current {
        Some(e) => is_live(e.ttl, now),
        None => true,
    }
}

/// The ttl that a read at `now` finds under `key`.
pub open spec fn ttl_value(current: Option<Entry>, key: Seq<u8>, now: i64) -> Result<
    i64,
    ErrorView,
> {
    match read_value(current, now) {
        Some(e) => Ok(e.ttl),
        None => Err(not_found(key)),
    }
}

/// What lies under a key with its ttl written anew at `now`.
pub open spec fn retimed(current: Option<Entry>, ttl: i64, now: i64) -> Option<Entry> {
    match current {
        Some(e) => Some(Entry { ttl: stored_ttl(ttl, now), ..e }),
        None => None,
    }
}

/// What `update_ttl` hands back for what lies under `key`.
pub open spec fn retimed_result(current: Option<Entry>, key: Seq<u8>) -> Result<(), ErrorView> {
    match current {
        Some(_) => Ok(()),
        None => Err(not_found(key)),
    }
}

/// The store after a read of `key` at `now`: an expired entry is removed.
pub open spec fn after_read(s: Contents, key: Seq<u8>, now: i64) -> Contents {
    if read_keeps(entry_at(s, key), now) {
        s
    } else {
        s.remove(key)
    }
}

/// What `get` hands back.
pub open spec fn get_result(s: Contents, key: Seq<u8>, now: i64) -> Option<Entry> {
    read_value(entry_at(s, key), now)
}

/// What `get_ttl` hands back.
pub open spec fn get_ttl_result(s: Contents, key: Seq<u8>, now: i64) -> Result<i64, ErrorView> {
    ttl_value(entry_at(s, key), key, now)
}

/// The store after `update_ttl`: the entry under `key`, if any, with its ttl
/// written anew.
pub open spec fn after_update_ttl(s: Contents, key: Seq<u8>, ttl: i64, now: i64) -> Contents {
    match retimed(entry_at(s, key), ttl, now) {
        Some(e) => s.insert(key, e),
        None => s,
    }
}

/// What `update_ttl` hands back.
pub open spec fn update_ttl_result(s: Contents, key: Seq<u8>) -> Result<(), ErrorView> {
    retimed_result(entry_at(s, key), key)
}

/// A caller's value as it is kept at rest when written at `now`.
pub open spec fn at_rest(value: Entry, now: i64) -> Entry {
    Entry { ttl: stored_ttl(value.ttl, now), ..value }
}

/// The store after `set`.
pub open spec fn after_set(s: Contents, key: Seq<u8>, value: Entry, now: i64) -> Contents {
    s.insert(key, at_rest(value, now))
}

/// A counter moved by `delta`, up or down, in 64-bit two's complement.
pub open spec fn moved(current: i64, delta: i64, up: bool) -> i64 {
    if up {
        current.wrapping_add(delta)
    } else {
        current.wrapping_sub(delta)
    }
}

/// The entry that a counter operation writes and hands back.
///
/// An entry that is there must be an integer; it keeps its ttl. Where none is
/// there, the default starts a fresh integer that never expires; without a
/// default the key is not found.
pub open spec fn counted(
    current: Option<Entry>,
    key: Seq<u8>,
    delta: i64,
    default_value: Option<i64>,
    up: bool,
) -> Result<Entry, ErrorView> {
    match current {
        Some(e) => match integer_value(e) {
            Ok(n) => Ok(Entry { value: format_decimal(moved(n, delta, up) as int), ..e }),
            Err(failure) => Err(failure),
        },
        None => match default_value {
            Some(start) => Ok(
                Entry {
                    value_type: ValueType::Integer,
                    ttl: NO_EXPIRY,
                    value: format_decimal(moved(start, delta, up) as int),
                },
            ),
            None => Err(not_found(key)),
        },
    }
}

/// What a counter operation hands back.
pub open spec fn counter_result(
    s: Contents,
    key: Seq<u8>,
    delta: i64,
    default_value: Option<i64>,
    up: bool,
) -> Result<Entry, ErrorView> {
    counted(entry_at(s, key), key, delta, default_value, up)
}

/// The store after a counter operation.
pub open spec fn after_counter(
    s: Contents,
    key: Seq<u8>,
    delta: i64,
    default_value: Option<i64>,
    up: bool,
) -> Contents {
    match counter_result(s, key, delta, default_value, up) {
        Ok(e) => s.insert(key, e),
        Err(_) => s,
    }
}

/// The store after `delete`.
pub open spec fn after_delete(s: Contents, key: Seq<u8>) -> Contents {
    s.remove(key)
}

/// The keys of `s` in the range of `prefix`.
pub open spec fn keys_in_range(s: Contents, prefix: Seq<u8>) -> Set<Seq<u8>> {
    Set::new(|k: Seq<u8>| s.contains_key(k) && in_prefix_range(k, prefix))
}

/// The store after `delete_prefix`: without the keys in the range of `prefix`.
pub open spec fn after_delete_prefix(s: Contents, prefix: Seq<u8>) -> Contents {
    s.remove_keys(keys_in_range(s, prefix))
}

/// The keys that begin with `prefix` and whose entries have expired at `now`.
pub open spec fn expired_under(s: Contents, prefix: Seq<u8>, now: i64) -> Set<Seq<u8>> {
    Set::new(|k: Seq<u8>| s.contains_key(k) && has_prefix(k, prefix) && !is_live(s[k].ttl, now))
}

/// The keys that begin with `prefix` and whose entries are live at `now`.
pub open spec fn live_under(s: Contents, prefix: Seq<u8>, now: i64) -> Set<Seq<u8>> {
    Set::new(|k: Seq<u8>| s.contains_key(k) && has_prefix(k, prefix) && is_live(s[k].ttl, now))
}

/// The store after `get_all_keys`: without the expired entries that the scan met.
pub open spec fn after_scan(s: Contents, prefix: Seq<u8>, now: i64) -> Contents {
    s.remove_keys(expired_under(s, prefix, now))
}

/// Whether every key of the set is well-formed UTF-8.
pub open spec fn all_text(keys: Set<Seq<u8>>) -> bool {
    forall|k: Seq<u8>| keys.contains(k) ==> valid_utf8(k)
}

/// The bytes of each listed key.
pub open spec fn listed_keys(names: Seq<String>) -> Seq<Seq<u8>> {
    Seq::new(names.len(), |i: int| encode_utf8(names[i]@))
}

/// Whether `names` lists exactly `keys`, each once, as text.
pub open spec fn lists(names: Seq<String>, keys: Set<Seq<u8>>) -> bool {
    listed_keys(names).no_duplicates() && listed_keys(names).to_set() == keys
}

/// The failure of a scan that meets a key which is no text.
pub open spec fn key_not_text() -> ErrorView {
    ErrorView::InternalError("Key is not valid UTF-8"@)
}

/// What `get_all_keys` may hand back for the store `s`.
pub open spec fn scan_result(
    s: Contents,
    prefix: Seq<u8>,
    now: i64,
    r: Result<Vec<String>, DatabaseError>,
) -> bool {
    if all_text(live_under(s, prefix, now)) {
        r matches Ok(names) && lists(names@, live_under(s, prefix, now))
    } else {
        lift(r) == Err::<Vec<String>, ErrorView>(key_not_text())
    }
}

/// A result with the value it carries in mathematical form.
pub open spec fn lift_value(r: Result<StorageValue, DatabaseError>) -> Result<Entry, ErrorView> {
    match r {
        Ok(v) => Ok(v@),
        Err(e) => Err(e@),
    }
}

/// An optional value in mathematical form.
pub open spec fn lift_option(v: Option<StorageValue>) -> Option<Entry> {
    match v {
        Some(v) => Some(v@),
        None => None,
    }
}

/// A result that may carry a value, in mathematical form.
pub open spec fn lift_found(r: Result<Option<StorageValue>, DatabaseError>) -> Result<
    Option<Entry>,
    ErrorView,
> {
    match r {
        Ok(v) => Ok(lift_option(v)),
        Err(e) => Err(e@),
    }
}

/// The capability that every backend offers.
///
/// The operations that depend on the time exist twice: `get_at` and its like
/// take the instant as an argument and are exact; `get` and its like read
/// the clock and do what the exact operation does at the instant read.
pub trait Storage {
    /// What the store holds at rest.
    spec fn contents(&self) -> Contents;

    /// Releases what the backend holds. The entries are left as they are.
    fn close(&mut self)
        ensures
            final(self).contents() == old(self).contents(),
    ;

    /// Reads `key` at `now`: the value with the seconds that remain, or
    /// `None` where the key is absent or its entry has expired. An expired
    /// entry is removed.
    fn get_at(&mut self, key: &[u8], now: i64) -> (r: Result<Option<StorageValue>, DatabaseError>)
        ensures
            final(self).contents() == after_read(old(self).contents(), key@, now),
            lift_found(r) == Ok::<Option<Entry>, ErrorView>(
                get_result(old(self).contents(), key@, now),
            ),
    ;

    /// Lists at `now` the live keys that begin with `prefix`, each once, and
    /// removes the expired entries that begin with it. Fails with
    /// `InternalError` where one of the live keys is not UTF-8 text.
    fn get_all_keys_at(&mut self, prefix: &[u8], now: i64) -> (r: Result<
        Vec<String>,
        DatabaseError,
    >)
        ensures
            final(self).contents() == after_scan(old(self).contents(), prefix@, now),
            scan_result(old(self).contents(), prefix@, now, r),
    ;

    /// The seconds that remain at `now` for `key`, or `-1` where it never
    /// expires. Fails with `ValueNotFound` where the key is absent or its
    /// entry has expired; an expired entry is removed.
    fn get_ttl_at(&mut self, key: &[u8], now: i64) -> (r: Result<i64, DatabaseError>)
        ensures
            final(self).contents() == after_read(old(self).contents(), key@, now),
            lift(r) == get_ttl_result(old(self).contents(), key@, now),
    ;

    /// Writes the ttl of `key` anew at `now`: no expiry for a negative `ttl`,
    /// else expiry `ttl` seconds after `now`. Fails with `ValueNotFound`
    /// where the key is absent.
    fn update_ttl_at(&mut self, key: &[u8], ttl: i64, now: i64) -> (r: Result<(), DatabaseError>)
        ensures
            final(self).contents() == after_update_ttl(old(self).contents(), key@, ttl, now),
            lift(r) == update_ttl_result(old(self).contents(), key@),
    ;

    /// Writes `value` under `key` at `now`, over what may be there.
    fn set_at(&mut self, key: &[u8], value: &StorageValue, now: i64) -> (r: Result<
        (),
        DatabaseError,
    >)
        ensures
            final(self).contents() == after_set(old(self).contents(), key@, value@, now),
            r is Ok,
    ;

    /// Adds `value` to the counter under `key` and hands back the entry as
    /// it is then kept, its ttl in the form at rest.
    ///
    /// Fails with `InvalidValueType` where the entry is no integer, with
    /// `InternalError` where its bytes are no decimal text, and with
    /// `ValueNotFound` where the key is absent and no default is given.
    fn increment(&mut self, key: &[u8], value: i64, default_value: Option<i64>) -> (r: Result<
        StorageValue,
        DatabaseError,
    >)
        ensures
            final(self).contents() == after_counter(
                old(self).contents(),
                key@,
                value,
                default_value,
                true,
            ),
            lift_value(r) == counter_result(old(self).contents(), key@, value, default_value, true),
    ;

    /// Subtracts `value` from the counter under `key`; otherwise as `increment`.
    fn decrement(&mut self, key: &[u8], value: i64, default_value: Option<i64>) -> (r: Result<
        StorageValue,
        DatabaseError,
    >)
        ensures
            final(self).contents() == after_counter(
                old(self).contents(),
                key@,
                value,
                default_value,
                false,
            ),
            lift_value(r) == counter_result(
                old(self).contents(),
                key@,
                value,
                default_value,
                false,
            ),
    ;

    /// Removes `key`. Succeeds whether or not the key was there.
    fn delete(&mut self, key: &[u8]) -> (r: Result<(), DatabaseError>)
        ensures
            final(self).contents() == after_delete(old(self).contents(), key@),
            r is Ok,
    ;

    /// Removes every key in the range of `prefix`.
    fn delete_prefix(&mut self, prefix: &[u8]) -> (r: Result<(), DatabaseError>)
        ensures
            final(self).contents() == after_delete_prefix(old(self).contents(), prefix@),
            r is Ok,
    ;

    /// Reads `key` at the present instant.
    fn get(&mut self, key: &[u8]) -> (r: Result<Option<StorageValue>, DatabaseError>)
        ensures
            exists|now: i64|
                {
                    &&& final(self).contents() == after_read(old(self).contents(), key@, now)
                    &&& lift_found(r) == Ok::<Option<Entry>, ErrorView>(
                        #[trigger] get_result(old(self).contents(), key@, now),
                    )
                },
    {
        let now = unix_now();
        self.get_at(key, now)
    }

    /// Lists the live keys that begin with `prefix` at the present instant.
    fn get_all_keys(&mut self, prefix: &[u8]) -> (r: Result<Vec<String>, DatabaseError>)
        ensures
            exists|now: i64|
                {
                    &&& final(self).contents() == #[trigger] after_scan(
                        old(self).contents(),
                        prefix@,
                        now,
                    )
                    &&& scan_result(old(self).contents(), prefix@, now, r)
                },
    {
        let now = unix_now();
        self.get_all_keys_at(prefix, now)
    }

    /// The seconds that remain for `key` at the present instant.
    fn get_ttl(&mut self, key: &[u8]) -> (r: Result<i64, DatabaseError>)
        ensures
            exists|now: i64|
                {
                    &&& final(self).contents() == after_read(old(self).contents(), key@, now)
                    &&& lift(r) == #[trigger] get_ttl_result(old(self).contents(), key@, now)
                },
    {
        let now = unix_now();
        self.get_ttl_at(key, now)
    }

    /// Writes the ttl of `key` anew, counted from the present instant.
    fn update_ttl(&mut self, key: &[u8], ttl: i64) -> (r: Result<(), DatabaseError>)
        ensures
            exists|now: i64|
                final(self).contents() == #[trigger] after_update_ttl(
                    old(self).contents(),
                    key@,
                    ttl,
                    now,
                ),
            lift(r) == update_ttl_result(old(self).contents(), key@),
    {
        let now = unix_now();
        self.update_ttl_at(key, ttl, now)
    }

    /// Writes `value` under `key`, its ttl counted from the present instant.
    fn set(&mut self, key: &[u8], value: &StorageValue) -> (r: Result<(), DatabaseError>)
        ensures
            exists|now: i64|
                final(self).contents() == #[trigger] after_set(
                    old(self).contents(),
                    key@,
                    value@,
                    now,
                ),
            r is Ok,
    {
        let now = unix_now();
        self.set_at(key, value, now)
    }
}

} // verus!
