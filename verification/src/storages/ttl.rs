//! The life of a time-to-live value.
//!
//! A caller hands in a duration in seconds, or a negative number for an
//! entry that never expires. At rest the store keeps the instant at which the
//! entry expires, in seconds since the epoch, or `-1`. A read turns the
//! instant back into the seconds that remain.

use vstd::prelude::*;

verus! {

/// The stored ttl of an entry that never expires.
pub const NO_EXPIRY: i64 = -1;

/// The ttl kept at rest for a caller's `ttl` written at the instant `now`.
///
/// The sum is taken in 64-bit two's complement: it wraps where it leaves the
/// range.
pub open spec fn stored_ttl(ttl: i64, now: i64) -> i64 {
    if ttl < 0 {
        NO_EXPIRY
    } else {
        now.wrapping_add(ttl)
    }
}

/// The seconds that remain at `now` of an entry stored with `stored`:
/// `Some(-1)` when it never expires, `None` when it has expired, that is when
/// no more than zero seconds remain.
///
/// The difference is taken in 64-bit two's complement.
pub open spec fn remaining_ttl(stored: i64, now: i64) -> Option<i64> {
    if stored < 0 {
        Some(NO_EXPIRY)
    } else if stored.wrapping_sub(now) <= 0 {
        None
    } else {
        Some(stored.wrapping_sub(now))
    }
}

/// Whether an entry stored with `stored` can still be read at `now`.
pub open spec fn is_live(stored: i64, now: i64) -> bool {
    remaining_ttl(stored, now) is Some
}

/// Turns a caller's ttl into the form kept at rest.
pub fn normalize(ttl: i64, now: i64) -> (stored: i64)
    ensures
        stored == stored_ttl(ttl, now),
        ttl < 0 ==> stored == NO_EXPIRY,
        0 <= ttl && now + ttl <= i64::MAX && now + ttl >= i64::MIN ==> stored == now + ttl,
{
    if ttl < 0 {
        NO_EXPIRY
    } else {
        now.wrapping_add(ttl)
    }
}

/// Reads a stored ttl at `now`: the seconds that remain, `-1` for an entry
/// that never expires, `None` for one that has expired.
pub fn remaining(stored: i64, now: i64) -> (left: Option<i64>)
    ensures
        left == remaining_ttl(stored, now),
        left matches Some(t) ==> t == -1 || t > 0,
        stored < 0 ==> left == Some(NO_EXPIRY),
        0 <= stored && i64::MIN <= stored - now <= i64::MAX ==> (left matches Some(t) ==> t
            == stored - now),
        0 <= stored && i64::MIN <= stored - now <= i64::MAX ==> (left is None <==> stored <= now),
{
    if stored < 0 {
        Some(NO_EXPIRY)
    } else {
        let left = stored.wrapping_sub(now);
        if left <= 0 {
            None
        } else {
            Some(left)
        }
    }
}

/// An entry written at `written` with a ttl of `ttl` seconds and read at
/// `read`, no earlier, shows what is left of the ttl, and is gone once the ttl
/// has run out.
pub proof fn law_written_then_read(ttl: i64, written: i64, read: i64)
    requires
        0 <= ttl,
        written <= read,
        0 <= written + ttl <= i64::MAX,
    ensures
        read - written < ttl ==> remaining_ttl(stored_ttl(ttl, written), read) == Some(
            (ttl - (read - written)) as i64,
        ),
        read - written >= ttl ==> remaining_ttl(stored_ttl(ttl, written), read) is None,
{
}

/// An entry written without expiry is live at every instant and shows `-1`.
pub proof fn law_never_expires(ttl: i64, written: i64, read: i64)
    requires
        ttl < 0,
    ensures
        remaining_ttl(stored_ttl(ttl, written), read) == Some(NO_EXPIRY),
{
}

} // verus!
