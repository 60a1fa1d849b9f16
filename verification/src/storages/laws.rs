//! What follows from the storage contract, whatever the backend.
//!
//! Each statement is about the functions of the contract alone: it holds of
//! every store whose operations do what the contract says.

use crate::errors::ErrorView;
use crate::storages::decimal::{format_decimal, lemma_format_then_parse};
use crate::storages::key::{free_of_ending, has_prefix, lemma_prefix_range};
use crate::storages::storage::{
    after_counter, after_delete, after_delete_prefix, after_read, after_scan, after_set,
    after_update_ttl, counter_result, entry_at, get_result, get_ttl_result, live_under, moved,
    not_found, update_ttl_result, Contents,
};
use crate::storages::ttl::{is_live, remaining_ttl, stored_ttl, NO_EXPIRY};
use crate::storages::value::{integer_value, Entry, ValueType};
use vstd::prelude::*;

verus! {

/// Whether an entry written at `written` with the ttl `ttl` is still there
/// at `read`: it never expires, or the clock has not run back, the instant of
/// expiry fits the range, and less than the ttl has passed.
pub open spec fn outlives(ttl: i64, written: i64, read: i64) -> bool {
    ttl < 0 || (written <= read && 0 <= written + ttl <= i64::MAX && read - written < ttl)
}

/// Whether an entry written at `written` with the ttl `ttl` has run out at
/// `read`.
pub open spec fn run_out(ttl: i64, written: i64, read: i64) -> bool {
    0 <= ttl && written <= read && 0 <= written + ttl <= i64::MAX && read - written >= ttl
}

/// The ttl that a read at `read` shows of an entry written at `written`.
pub open spec fn ttl_left(ttl: i64, written: i64, read: i64) -> i64 {
    if ttl < 0 {
        NO_EXPIRY
    } else {
        (ttl - (read - written)) as i64
    }
}

/// A value that is set and read while its entry is live comes back with its
/// type and its bytes, and with the ttl that the read finds.
pub proof fn law_round_trip(s: Contents, key: Seq<u8>, value: Entry, written: i64, read: i64)
    requires
        is_live(stored_ttl(value.ttl, written), read),
    ensures
        get_result(after_set(s, key, value, written), key, read) == Some(
            Entry { ttl: remaining_ttl(stored_ttl(value.ttl, written), read)->Some_0, ..value },
        ),
        after_read(after_set(s, key, value, written), key, read) == after_set(
            s,
            key,
            value,
            written,
        ),
{
}

/// A value that is set and read before its ttl has run out comes back with
/// what is left of the ttl.
pub proof fn law_round_trip_in_time(
    s: Contents,
    key: Seq<u8>,
    value: Entry,
    written: i64,
    read: i64,
)
    requires
        outlives(value.ttl, written, read),
    ensures
        is_live(stored_ttl(value.ttl, written), read),
        get_result(after_set(s, key, value, written), key, read) == Some(
            Entry { ttl: ttl_left(value.ttl, written, read), ..value },
        ),
{
}

/// A value set without expiry is there at every later read, however often it
/// is read, and its ttl reads as `-1`.
pub proof fn law_no_expiry_persists(
    s: Contents,
    key: Seq<u8>,
    value: Entry,
    written: i64,
    read: i64,
)
    requires
        value.ttl < 0,
    ensures
        get_result(after_set(s, key, value, written), key, read) == Some(
            Entry { ttl: NO_EXPIRY, ..value },
        ),
        get_ttl_result(after_set(s, key, value, written), key, read) == Ok::<i64, ErrorView>(
            NO_EXPIRY,
        ),
        after_read(after_set(s, key, value, written), key, read) == after_set(
            s,
            key,
            value,
            written,
        ),
{
}

/// A value whose ttl has run out is gone: a read finds nothing and removes
/// the entry, its ttl is not found, and no scan lists the key.
pub proof fn law_expiry(
    s: Contents,
    key: Seq<u8>,
    value: Entry,
    written: i64,
    read: i64,
    prefix: Seq<u8>,
)
    requires
        run_out(value.ttl, written, read),
    ensures
        get_result(after_set(s, key, value, written), key, read) is None,
        get_ttl_result(after_set(s, key, value, written), key, read) == Err::<i64, ErrorView>(
            not_found(key),
        ),
        !after_read(after_set(s, key, value, written), key, read).contains_key(key),
        !live_under(after_set(s, key, value, written), prefix, read).contains(key),
        !after_scan(after_read(after_set(s, key, value, written), key, read), prefix, read)
            .contains_key(key),
{
}

/// A scan lists a key exactly when the key is there, begins with the prefix
/// and has not expired; it removes only expired keys under the prefix.
pub proof fn law_scan_scope(s: Contents, prefix: Seq<u8>, now: i64, key: Seq<u8>)
    ensures
        live_under(s, prefix, now).contains(key) <==> s.contains_key(key) && has_prefix(
            key,
            prefix,
        ) && is_live(s[key].ttl, now),
        after_scan(s, prefix, now).contains_key(key) <==> s.contains_key(key) && !(has_prefix(
            key,
            prefix,
        ) && !is_live(s[key].ttl, now)),
        after_scan(s, prefix, now).contains_key(key) ==> after_scan(s, prefix, now)[key] == s[key],
{
}

/// Deleting a prefix removes the textual keys that begin with it, and no
/// other key; what stays keeps its entry.
pub proof fn law_delete_prefix_scope(s: Contents, prefix: Seq<u8>, key: Seq<u8>)
    requires
        free_of_ending(key),
    ensures
        after_delete_prefix(s, prefix).contains_key(key) <==> s.contains_key(key) && !has_prefix(
            key,
            prefix,
        ),
        after_delete_prefix(s, prefix).contains_key(key) ==> after_delete_prefix(s, prefix)[key]
            == s[key],
{
    lemma_prefix_range(key, prefix);
}

/// After a prefix is deleted, a scan of it lists no textual key.
pub proof fn law_delete_prefix_then_scan(s: Contents, prefix: Seq<u8>, now: i64, key: Seq<u8>)
    requires
        free_of_ending(key),
    ensures
        !live_under(after_delete_prefix(s, prefix), prefix, now).contains(key),
{
    lemma_prefix_range(key, prefix);
}

/// Deleting a prefix twice is deleting it once.
pub proof fn law_delete_prefix_idempotent(s: Contents, prefix: Seq<u8>)
    ensures
        after_delete_prefix(after_delete_prefix(s, prefix), prefix) == after_delete_prefix(
            s,
            prefix,
        ),
{
    assert(after_delete_prefix(after_delete_prefix(s, prefix), prefix) =~= after_delete_prefix(
        s,
        prefix,
    ));
}

/// A counter operation on a key that is absent, without a default, fails with
/// `ValueNotFound` and leaves the store as it is.
pub proof fn law_counter_needs_a_start(s: Contents, key: Seq<u8>, delta: i64, up: bool)
    requires
        !s.contains_key(key),
    ensures
        counter_result(s, key, delta, None, up) == Err::<Entry, ErrorView>(not_found(key)),
        after_counter(s, key, delta, None, up) == s,
{
}

/// A counter operation with a default on a key that is absent starts a fresh
/// integer without expiry at the default moved by the step.
pub proof fn law_counter_starts_at_default(
    s: Contents,
    key: Seq<u8>,
    delta: i64,
    start: i64,
    up: bool,
)
    requires
        !s.contains_key(key),
    ensures
        counter_result(s, key, delta, Some(start), up) == Ok::<Entry, ErrorView>(
            Entry {
                value_type: ValueType::Integer,
                ttl: NO_EXPIRY,
                value: format_decimal(moved(start, delta, up) as int),
            },
        ),
        entry_at(after_counter(s, key, delta, Some(start), up), key) == Some(
            Entry {
                value_type: ValueType::Integer,
                ttl: NO_EXPIRY,
                value: format_decimal(moved(start, delta, up) as int),
            },
        ),
{
}

/// A counter operation goes on from what the one before it wrote: the
/// default counts only while the key is absent, and the ttl stays.
pub proof fn law_counter_resumes(
    s: Contents,
    key: Seq<u8>,
    first: i64,
    first_default: Option<i64>,
    first_up: bool,
    second: i64,
    second_default: Option<i64>,
    second_up: bool,
)
    requires
        counter_result(s, key, first, first_default, first_up) is Ok,
    ensures
        ({
            let written = counter_result(s, key, first, first_default, first_up)->Ok_0;
            let mid = after_counter(s, key, first, first_default, first_up);
            exists|n: i64|
                {
                    &&& written.value == #[trigger] format_decimal(n as int)
                    &&& counter_result(mid, key, second, second_default, second_up) == Ok::<
                        Entry,
                        ErrorView,
                    >(Entry { value: format_decimal(moved(n, second, second_up) as int), ..written })
                }
        }),
{
    let written = counter_result(s, key, first, first_default, first_up)->Ok_0;
    let n: i64 = match entry_at(s, key) {
        Some(e) => moved(integer_value(e)->Ok_0, first, first_up),
        None => moved(first_default->Some_0, first, first_up),
    };
    lemma_format_then_parse(n);
    assert(written.value == format_decimal(n as int));
}

/// A counter operation on an entry that is no integer fails with
/// `InvalidValueType` and leaves the store as it is.
pub proof fn law_counter_wrong_type(
    s: Contents,
    key: Seq<u8>,
    delta: i64,
    default_value: Option<i64>,
    up: bool,
)
    requires
        s.contains_key(key),
        s[key].value_type != ValueType::Integer,
    ensures
        counter_result(s, key, delta, default_value, up) == Err::<Entry, ErrorView>(
            ErrorView::InvalidValueType("Value is not an integer"@),
        ),
        after_counter(s, key, delta, default_value, up) == s,
{
}

/// `update_ttl` on an absent key fails with `ValueNotFound` and changes nothing.
pub proof fn law_update_ttl_absent(s: Contents, key: Seq<u8>, ttl: i64, now: i64)
    requires
        !s.contains_key(key),
    ensures
        update_ttl_result(s, key) == Err::<(), ErrorView>(not_found(key)),
        after_update_ttl(s, key, ttl, now) == s,
{
}

/// After `update_ttl` on a present key, the ttl reads as what is left of the
/// new one: more than zero and no more than what was given.
pub proof fn law_update_ttl_then_get_ttl(
    s: Contents,
    key: Seq<u8>,
    ttl: i64,
    written: i64,
    read: i64,
)
    requires
        s.contains_key(key),
        0 <= ttl,
        outlives(ttl, written, read),
    ensures
        update_ttl_result(s, key) == Ok::<(), ErrorView>(()),
        get_ttl_result(after_update_ttl(s, key, ttl, written), key, read) == Ok::<i64, ErrorView>(
            ttl_left(ttl, written, read),
        ),
        0 < ttl_left(ttl, written, read) <= ttl,
{
}

/// `update_ttl` with a negative ttl takes the expiry away.
pub proof fn law_update_ttl_never(s: Contents, key: Seq<u8>, ttl: i64, written: i64, read: i64)
    requires
        s.contains_key(key),
        ttl < 0,
    ensures
        get_ttl_result(after_update_ttl(s, key, ttl, written), key, read) == Ok::<i64, ErrorView>(
            NO_EXPIRY,
        ),
{
}

/// Deleting a key twice is deleting it once, and deleting an absent key
/// changes nothing.
pub proof fn law_delete_idempotent(s: Contents, key: Seq<u8>)
    ensures
        after_delete(after_delete(s, key), key) == after_delete(s, key),
        !s.contains_key(key) ==> after_delete(s, key) == s,
        !after_delete(s, key).contains_key(key),
{
    assert(after_delete(after_delete(s, key), key) =~= after_delete(s, key));
    if !s.contains_key(key) {
        assert(after_delete(s, key) =~= s);
    }
}

/// A key that is deleted is not found by a read that follows.
pub proof fn law_delete_then_get(s: Contents, key: Seq<u8>, now: i64)
    ensures
        get_result(after_delete(s, key), key, now) is None,
{
}

} // verus!
