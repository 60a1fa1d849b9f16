//! The step of a counter operation, the same for every backend.

use crate::errors::DatabaseError;
use crate::storages::decimal::format_i64;
use crate::storages::storage::{counted, lift_option, lift_value, moved};
use crate::storages::ttl::NO_EXPIRY;
use crate::storages::value::{StorageValue, ValueType};
use crate::text::lossy;
use vstd::prelude::*;

verus! {

/// Moves a counter by `delta`, up or down, in 64-bit two's complement.
pub fn step(n: i64, delta: i64, up: bool) -> (next: i64)
    ensures
        next == moved(n, delta, up),
{
    if up {
        n.wrapping_add(delta)
    } else {
        n.wrapping_sub(delta)
    }
}

/// The entry that a counter operation on `key` writes and hands back, from
/// what lies under the key.
///
/// What is there must be an integer: it is moved by `delta` and keeps its
/// ttl. Where nothing is there, the default moved by `delta` starts a fresh
/// integer that never expires. Fails with `InvalidValueType` where the entry
/// is no integer, with `InternalError` where its bytes are no decimal text,
/// and with `ValueNotFound` where nothing is there and no default is given.
pub fn count(
    current: Option<StorageValue>,
    key: &[u8],
    delta: i64,
    default_value: Option<i64>,
    up: bool,
) -> (r: Result<StorageValue, DatabaseError>)
    ensures
        lift_value(r) == counted(lift_option(current), key@, delta, default_value, up),
{
    match current {
        Some(kept) => match kept.get_integer_value() {
            Ok(n) => Ok(
                StorageValue {
                    value_type: kept.value_type,
                    ttl: kept.ttl,
                    value: format_i64(step(n, delta, up)),
                },
            ),
            Err(failure) => Err(failure),
        },
        None => match default_value {
            Some(start) => Ok(
                StorageValue {
                    value_type: ValueType::Integer,
                    ttl: NO_EXPIRY,
                    value: format_i64(step(start, delta, up)),
                },
            ),
            None => Err(DatabaseError::ValueNotFound(lossy(key))),
        },
    }
}

} // verus!
