//! The decisions of the backends that keep their entries in an engine.
//!
//! Such a backend opens a transaction for each call, reads what lies under
//! the key, decides, writes and commits. The reading, the writing and the
//! commit are the engine's; the deciding is here. Each function takes what
//! the transaction read and hands back what the call returns together with
//! what the transaction has to write before it commits.
//!
//! The decisions that depend on the time exist twice: `get_at` and its like
//! take the instant as an argument and are exact; `get` and its like read the
//! clock and decide as the exact one does at the instant read.
//!
//! The engine holds blobs. A blob that is no entry is reported as an
//! `InternalError` and nothing is written.

use crate::clock::unix_now;
use crate::errors::{lift, DatabaseError, ErrorView};
use crate::storages::counter;
use crate::storages::decimal::{format_decimal, nat_digits};
use crate::storages::key::{has_prefix, starts_with};
use crate::storages::storage::{
    at_rest, counted, key_not_text, lift_found, lift_value, listed_keys, read_keeps, read_value,
    retimed, retimed_result, ttl_value,
};
use crate::storages::ttl::{is_live, normalize, remaining};
use crate::storages::value::{decode, encode, Entry, StorageValue};
use crate::text::{lossy, utf8_text};
use vstd::prelude::*;
use vstd::slice::*;
use vstd::utf8::*;

verus! {

/// What a call does to the blob under its key.
#[derive(Debug)]
pub enum Change {
    /// Nothing.
    Keep,
    /// Writes this blob.
    Put(Vec<u8>),
    /// Removes what is there.
    Delete,
}

/// The mathematical form of a [`Change`].
pub enum ChangeView {
    Keep,
    Put(Seq<u8>),
    Delete,
}

impl View for Change {
    type V = ChangeView;

    open spec fn view(&self) -> ChangeView {
        match self {
            Change::Keep => ChangeView::Keep,
            Change::Put(blob) => ChangeView::Put(blob@),
            Change::Delete => ChangeView::Delete,
        }
    }
}

/// What a call on one key comes to: what it returns and what it writes.
#[derive(Debug)]
pub struct Outcome<T> {
    pub result: Result<T, DatabaseError>,
    pub change: Change,
}

/// The mathematical form of an [`Outcome`].
pub struct Plan<T> {
    pub result: Result<T, ErrorView>,
    pub change: ChangeView,
}

/// What a scan comes to: the keys it lists, or why it cannot, and the keys of
/// the expired entries, which the transaction removes.
#[derive(Debug)]
pub struct Listing {
    pub result: Result<Vec<String>, DatabaseError>,
    pub expired: Vec<Vec<u8>>,
}

/// The mathematical form of a [`Listing`], the listed keys as bytes.
pub struct ListingPlan {
    pub result: Result<Seq<Seq<u8>>, ErrorView>,
    pub expired: Seq<Seq<u8>>,
}

/// An outcome in mathematical form.
pub open spec fn plan_of<T>(out: Outcome<T>) -> Plan<T> {
    Plan { result: lift(out.result), change: out.change@ }
}

/// An outcome that carries a value, in mathematical form.
pub open spec fn plan_of_value(out: Outcome<StorageValue>) -> Plan<Entry> {
    Plan { result: lift_value(out.result), change: out.change@ }
}

/// An outcome that may carry a value, in mathematical form.
pub open spec fn plan_of_option(out: Outcome<Option<StorageValue>>) -> Plan<Option<Entry>> {
    Plan { result: lift_found(out.result), change: out.change@ }
}

/// A listing in mathematical form.
pub open spec fn plan_of_listing(out: Listing) -> ListingPlan {
    ListingPlan {
        result: match out.result {
            Ok(names) => Ok(listed_keys(names@)),
            Err(e) => Err(e@),
        },
        expired: Seq::new(out.expired@.len(), |i: int| out.expired@[i]@),
    }
}

/// What a transaction read under a key, as bytes.
pub open spec fn blob(raw: Option<Vec<u8>>) -> Option<Seq<u8>> {
    match raw {
        Some(bytes) => Some(bytes@),
        None => None,
    }
}

/// What a cursor yielded, as pairs of key and blob.
pub open spec fn pairs(entries: Seq<(Vec<u8>, Vec<u8>)>) -> Seq<(Seq<u8>, Seq<u8>)> {
    Seq::new(entries.len(), |i: int| (entries[i].0@, entries[i].1@))
}

/// The failure for a blob that is no entry.
pub open spec fn corrupt() -> ErrorView {
    ErrorView::InternalError("Failed to decode stored value"@)
}

/// What lies under a key: nothing, an entry, or a blob that is no entry.
pub open spec fn held(raw: Option<Seq<u8>>) -> Result<Option<Entry>, ErrorView> {
    match raw {
        None => Ok(None),
        Some(bytes) => match decode(bytes) {
            Some(e) => Ok(Some(e)),
            None => Err(corrupt()),
        },
    }
}

/// What `get` comes to at `now`: what a read shows, and the removal of an
/// entry that has expired.
pub open spec fn get_plan(raw: Option<Seq<u8>>, now: i64) -> Plan<Option<Entry>> {
    match held(raw) {
        Ok(current) => Plan {
            result: Ok(read_value(current, now)),
            change: if read_keeps(current, now) {
                ChangeView::Keep
            } else {
                ChangeView::Delete
            },
        },
        Err(failure) => Plan { result: Err(failure), change: ChangeView::Keep },
    }
}

/// What `get_ttl` comes to at `now`.
pub open spec fn get_ttl_plan(raw: Option<Seq<u8>>, key: Seq<u8>, now: i64) -> Plan<i64> {
    match held(raw) {
        Ok(current) => Plan {
            result: ttl_value(current, key, now),
            change: if read_keeps(current, now) {
                ChangeView::Keep
            } else {
                ChangeView::Delete
            },
        },
        Err(failure) => Plan { result: Err(failure), change: ChangeView::Keep },
    }
}

/// What `update_ttl` comes to at `now`.
pub open spec fn update_ttl_plan(raw: Option<Seq<u8>>, key: Seq<u8>, ttl: i64, now: i64) -> Plan<
    (),
> {
    match held(raw) {
        Ok(current) => Plan {
            result: retimed_result(current, key),
            change: match retimed(current, ttl, now) {
                Some(e) => ChangeView::Put(encode(e)),
                None => ChangeView::Keep,
            },
        },
        Err(failure) => Plan { result: Err(failure), change: ChangeView::Keep },
    }
}

/// What `set` comes to at `now`.
pub open spec fn set_plan(value: Entry, now: i64) -> Plan<()> {
    Plan { result: Ok(()), change: ChangeView::Put(encode(at_rest(value, now))) }
}

/// What a counter operation comes to.
pub open spec fn counter_plan(
    raw: Option<Seq<u8>>,
    key: Seq<u8>,
    delta: i64,
    default_value: Option<i64>,
    up: bool,
) -> Plan<Entry> {
    match held(raw) {
        Ok(current) => match counted(current, key, delta, default_value, up) {
            Ok(e) => Plan { result: Ok(e), change: ChangeView::Put(encode(e)) },
            Err(failure) => Plan { result: Err(failure), change: ChangeView::Keep },
        },
        Err(failure) => Plan { result: Err(failure), change: ChangeView::Keep },
    }
}

/// How many entries stand at the front of `entries` with a key that begins
/// with `prefix`: where a cursor that started at the prefix leaves it.
pub open spec fn run_len(entries: Seq<(Seq<u8>, Seq<u8>)>, prefix: Seq<u8>) -> nat
    decreases entries.len(),
{
    if entries.len() == 0 || !has_prefix(entries[0].0, prefix) {
        0
    } else {
        1 + run_len(entries.skip(1), prefix)
    }
}

/// Whether one of the blobs is no entry.
pub open spec fn undecodable(run: Seq<(Seq<u8>, Seq<u8>)>) -> bool {
    exists|i: int| 0 <= i < run.len() && decode(#[trigger] run[i].1) is None
}

/// The keys of the entries that are live at `now`, in the order of `run`.
pub open spec fn live_keys(run: Seq<(Seq<u8>, Seq<u8>)>, now: i64) -> Seq<Seq<u8>>
    decreases run.len(),
{
    if run.len() == 0 {
        Seq::empty()
    } else {
        let before = live_keys(run.drop_last(), now);
        match decode(run.last().1) {
            Some(e) => if is_live(e.ttl, now) {
                before.push(run.last().0)
            } else {
                before
            },
            None => before,
        }
    }
}

/// The keys of the entries that have expired at `now`, in the order of `run`.
pub open spec fn expired_keys(run: Seq<(Seq<u8>, Seq<u8>)>, now: i64) -> Seq<Seq<u8>>
    decreases run.len(),
{
    if run.len() == 0 {
        Seq::empty()
    } else {
        let before = expired_keys(run.drop_last(), now);
        match decode(run.last().1) {
            Some(e) => if is_live(e.ttl, now) {
                before
            } else {
                before.push(run.last().0)
            },
            None => before,
        }
    }
}

/// Whether each of the keys is well-formed UTF-8.
pub open spec fn each_text(keys: Seq<Seq<u8>>) -> bool {
    forall|i: int| 0 <= i < keys.len() ==> valid_utf8(#[trigger] keys[i])
}

/// What `get_all_keys` comes to at `now`, from what a cursor yielded from the
/// prefix on.
///
/// Only the entries before the first key that does not begin with the prefix
/// count. A blob among them that is no entry fails the scan and nothing is
/// removed. Else the expired entries are removed, and the live keys are
/// listed, unless one of them is no text.
pub open spec fn scan_plan(entries: Seq<(Seq<u8>, Seq<u8>)>, prefix: Seq<u8>, now: i64) -> ListingPlan {
    let run = entries.take(run_len(entries, prefix) as int);
    if undecodable(run) {
        ListingPlan { result: Err(corrupt()), expired: Seq::empty() }
    } else {
        ListingPlan {
            result: if each_text(live_keys(run, now)) {
                Ok(live_keys(run, now))
            } else {
                Err(key_not_text())
            },
            expired: expired_keys(run, now),
        }
    }
}

/// The front run of entries under a prefix is as long as the entries whose
/// keys begin with it go on.
pub proof fn lemma_run_len(entries: Seq<(Seq<u8>, Seq<u8>)>, prefix: Seq<u8>, n: int)
    requires
        0 <= n <= entries.len(),
        forall|j: int| 0 <= j < n ==> has_prefix(#[trigger] entries[j].0, prefix),
    ensures
        run_len(entries, prefix) >= n,
        run_len(entries, prefix) <= entries.len(),
        n == entries.len() || !has_prefix(entries[n].0, prefix) ==> run_len(entries, prefix) == n,
    decreases entries.len(),
{
    if entries.len() == 0 || !has_prefix(entries[0].0, prefix) {
    } else {
        let rest = entries.skip(1);
        if n == 0 {
            lemma_run_len(rest, prefix, 0);
        } else {
            assert forall|j: int| 0 <= j < n - 1 implies has_prefix(
                #[trigger] rest[j].0,
                prefix,
            ) by {
                assert(rest[j] == entries[j + 1]);
            }
            lemma_run_len(rest, prefix, n - 1);
            if n < entries.len() {
                assert(rest[n - 1] == entries[n]);
            }
        }
    }
}

/// The text of an integer is short enough to be stored.
pub proof fn lemma_format_fits(v: i64)
    ensures
        format_decimal(v as int).len() <= u64::MAX,
{
    let n: nat = if v < 0 {
        (-(v as int)) as nat
    } else {
        v as nat
    };
    lemma_digits_len(n);
}

/// A number has no more digits than its value and one.
proof fn lemma_digits_len(n: nat)
    ensures
        nat_digits(n).len() <= n + 1,
    decreases n,
{
    if n >= 10 {
        lemma_digits_len(n / 10);
    }
}

/// Reads what lies under a key out of what the transaction read.
fn read(raw: Option<Vec<u8>>) -> (r: Result<Option<StorageValue>, DatabaseError>)
    ensures
        lift_found(r) == held(blob(raw)),
{
    match raw {
        None => Ok(None),
        Some(bytes) => match StorageValue::try_from_binary(bytes.as_slice()) {
            Some(v) => Ok(Some(v)),
            None => Err(DatabaseError::InternalError("Failed to decode stored value".to_owned())),
        },
    }
}

/// Decides `get` at `now`: the value with the seconds that remain, or `None`
/// where nothing is there or the entry has expired; an expired entry is
/// removed.
pub fn get_at(raw: Option<Vec<u8>>, now: i64) -> (out: Outcome<Option<StorageValue>>)
    ensures
        plan_of_option(out) == get_plan(blob(raw), now),
{
    match read(raw) {
        Err(failure) => Outcome { result: Err(failure), change: Change::Keep },
        Ok(None) => Outcome { result: Ok(None), change: Change::Keep },
        Ok(Some(kept)) => match remaining(kept.ttl, now) {
            Some(left) => Outcome {
                result: Ok(
                    Some(StorageValue { value_type: kept.value_type, ttl: left, value: kept.value }),
                ),
                change: Change::Keep,
            },
            None => Outcome { result: Ok(None), change: Change::Delete },
        },
    }
}

/// Decides `get_ttl` at `now`: the seconds that remain, `-1` without expiry,
/// `ValueNotFound` where nothing is there or the entry has expired; an
/// expired entry is removed.
pub fn get_ttl_at(key: &[u8], raw: Option<Vec<u8>>, now: i64) -> (out: Outcome<i64>)
    ensures
        plan_of(out) == get_ttl_plan(blob(raw), key@, now),
{
    match read(raw) {
        Err(failure) => Outcome { result: Err(failure), change: Change::Keep },
        Ok(None) => Outcome {
            result: Err(DatabaseError::ValueNotFound(lossy(key))),
            change: Change::Keep,
        },
        Ok(Some(kept)) => match remaining(kept.ttl, now) {
            Some(left) => Outcome { result: Ok(left), change: Change::Keep },
            None => Outcome {
                result: Err(DatabaseError::ValueNotFound(lossy(key))),
                change: Change::Delete,
            },
        },
    }
}

/// Decides `update_ttl` at `now`: the entry written back with its ttl anew,
/// or `ValueNotFound` where nothing is there.
pub fn update_ttl_at(key: &[u8], raw: Option<Vec<u8>>, ttl: i64, now: i64) -> (out: Outcome<()>)
    ensures
        plan_of(out) == update_ttl_plan(blob(raw), key@, ttl, now),
{
    match read(raw) {
        Err(failure) => Outcome { result: Err(failure), change: Change::Keep },
        Ok(None) => Outcome {
            result: Err(DatabaseError::ValueNotFound(lossy(key))),
            change: Change::Keep,
        },
        Ok(Some(kept)) => {
            let next = StorageValue {
                value_type: kept.value_type,
                ttl: normalize(ttl, now),
                value: kept.value,
            };
            Outcome { result: Ok(()), change: Change::Put(next.to_binary()) }
        },
    }
}

/// Decides `set` at `now`: the value written with its ttl in the form at rest.
pub fn set_at(value: &StorageValue, now: i64) -> (out: Outcome<()>)
    ensures
        plan_of(out) == set_plan(value@, now),
{
    let next = StorageValue {
        value_type: value.value_type,
        ttl: normalize(value.ttl, now),
        value: slice_to_vec(value.value.as_slice()),
    };
    Outcome { result: Ok(()), change: Change::Put(next.to_binary()) }
}

/// Decides a counter operation: moves what is there by `delta`, up or down,
/// or starts from the default.
fn count(key: &[u8], raw: Option<Vec<u8>>, delta: i64, default_value: Option<i64>, up: bool) -> (out:
    Outcome<StorageValue>)
    ensures
        plan_of_value(out) == counter_plan(blob(raw), key@, delta, default_value, up),
{
    let current = match read(raw) {
        Ok(current) => current,
        Err(failure) => {
            return Outcome { result: Err(failure), change: Change::Keep };
        },
    };
    let entry = match counter::count(current, key, delta, default_value, up) {
        Ok(entry) => entry,
        Err(failure) => {
            return Outcome { result: Err(failure), change: Change::Keep };
        },
    };
    let data = entry.to_binary();
    Outcome { result: Ok(entry), change: Change::Put(data) }
}

/// Decides `increment`: adds `value` to the counter that was read, or to the
/// default where nothing was read, and writes the result back with the ttl
/// that was there; a fresh counter never expires.
///
/// Fails with `InvalidValueType` where the entry is no integer, with
/// `InternalError` where its bytes are no decimal text or the blob is no
/// entry, and with `ValueNotFound` where nothing was read and no default is
/// given. A failure writes nothing.
pub fn increment(key: &[u8], raw: Option<Vec<u8>>, value: i64, default_value: Option<i64>) -> (out:
    Outcome<StorageValue>)
    ensures
        plan_of_value(out) == counter_plan(blob(raw), key@, value, default_value, true),
{
    count(key, raw, value, default_value, true)
}

/// Decides `decrement`: subtracts `value`; otherwise as [`increment`].
pub fn decrement(key: &[u8], raw: Option<Vec<u8>>, value: i64, default_value: Option<i64>) -> (out:
    Outcome<StorageValue>)
    ensures
        plan_of_value(out) == counter_plan(blob(raw), key@, value, default_value, false),
{
    count(key, raw, value, default_value, false)
}

/// Decides `get_all_keys` at `now` from what a cursor yielded from the prefix
/// on, in the engine's order.
///
/// The walk stops at the first key that does not begin with the prefix: the
/// cursor promises where it starts, not where it ends.
pub fn get_all_keys_at(entries: &Vec<(Vec<u8>, Vec<u8>)>, prefix: &[u8], now: i64) -> (out: Listing)
    ensures
        plan_of_listing(out) == scan_plan(pairs(entries@), prefix@, now),
{
    let ghost all = pairs(entries@);
    let mut names: Vec<String> = Vec::new();
    let mut expired: Vec<Vec<u8>> = Vec::new();
    let mut no_text = false;
    let mut i: usize = 0;
    proof {
        assert(all.take(0) =~= Seq::empty());
    }
    while i < entries.len() && starts_with(entries[i].0.as_slice(), prefix)
        invariant
            i <= entries@.len(),
            all == pairs(entries@),
            forall|j: int| 0 <= j < i ==> has_prefix(#[trigger] all[j].0, prefix@),
            !undecodable(all.take(i as int)),
            Seq::new(expired@.len(), |n: int| expired@[n]@) == expired_keys(all.take(i as int), now),
            !no_text ==> listed_keys(names@) == live_keys(all.take(i as int), now) && each_text(
                live_keys(all.take(i as int), now),
            ),
            no_text ==> !each_text(live_keys(all.take(i as int), now)),
        decreases entries@.len() - i,
    {
        let ghost before = all.take(i as int);
        let ghost now_run = all.take(i + 1);
        proof {
            assert(now_run.drop_last() =~= before);
            assert(now_run.last() == all[i as int]);
            assert(all[i as int].1 == entries@[i as int].1@);
        }
        match StorageValue::try_from_binary(entries[i].1.as_slice()) {
            None => {
                let out = Listing {
                    result: Err(
                        DatabaseError::InternalError("Failed to decode stored value".to_owned()),
                    ),
                    expired: Vec::new(),
                };
                proof {
                    lemma_run_len(all, prefix@, i + 1);
                    let run = all.take(run_len(all, prefix@) as int);
                    assert(run[i as int] == all[i as int]);
                    assert(decode(run[i as int].1) is None);
                    assert(undecodable(run));
                    assert(plan_of_listing(out).expired =~= Seq::<Seq<u8>>::empty());
                }
                return out;
            },
            Some(kept) => {
                proof {
                    assert forall|j: int| 0 <= j < now_run.len() implies decode(
                        #[trigger] now_run[j].1,
                    ) is Some by {
                        if j < i {
                            assert(before[j] == now_run[j]);
                        }
                    }
                }
                match remaining(kept.ttl, now) {
                    None => {
                        let ghost old_expired = Seq::new(expired@.len(), |n: int| expired@[n]@);
                        expired.push(slice_to_vec(entries[i].0.as_slice()));
                        proof {
                            assert(Seq::new(expired@.len(), |n: int| expired@[n]@)
                                =~= old_expired.push(all[i as int].0));
                        }
                    },
                    Some(_) => {
                        let ghost live_before = live_keys(before, now);
                        let ghost live_now = live_keys(now_run, now);
                        proof {
                            assert(live_now == live_before.push(all[i as int].0));
                        }
                        if !no_text {
                            match utf8_text(entries[i].0.as_slice()) {
                                Some(name) => {
                                    let ghost old_names = listed_keys(names@);
                                    names.push(name);
                                    proof {
                                        decode_utf8_encode_utf8(all[i as int].0);
                                        assert(listed_keys(names@) =~= old_names.push(
                                            all[i as int].0,
                                        ));
                                        assert forall|n: int|
                                            0 <= n < live_now.len() implies valid_utf8(
                                            #[trigger] live_now[n],
                                        ) by {
                                            if n < live_before.len() {
                                                assert(live_now[n] == live_before[n]);
                                            }
                                        }
                                    }
                                },
                                None => {
                                    no_text = true;
                                    proof {
                                        assert(!valid_utf8(live_now[live_before.len() as int]));
                                    }
                                },
                            }
                        } else {
                            proof {
                                let n = choose|n: int|
                                    0 <= n < live_before.len() && !valid_utf8(
                                        #[trigger] live_before[n],
                                    );
                                assert(live_now[n] == live_before[n]);
                            }
                        }
                    },
                }
            },
        }
        i = i + 1;
    }
    proof {
        lemma_run_len(all, prefix@, i as int);
    }
    if no_text {
        Listing {
            result: Err(DatabaseError::InternalError("Key is not valid UTF-8".to_owned())),
            expired,
        }
    } else {
        Listing { result: Ok(names), expired }
    }
}

/// Decides `get` at the present instant.
pub fn get(raw: Option<Vec<u8>>) -> (out: Outcome<Option<StorageValue>>)
    ensures
        exists|now: i64| plan_of_option(out) == #[trigger] get_plan(blob(raw), now),
{
    let now = unix_now();
    get_at(raw, now)
}

/// Decides `get_ttl` at the present instant.
pub fn get_ttl(key: &[u8], raw: Option<Vec<u8>>) -> (out: Outcome<i64>)
    ensures
        exists|now: i64| plan_of(out) == #[trigger] get_ttl_plan(blob(raw), key@, now),
{
    let now = unix_now();
    get_ttl_at(key, raw, now)
}

/// Decides `update_ttl`, the ttl counted from the present instant.
pub fn update_ttl(key: &[u8], raw: Option<Vec<u8>>, ttl: i64) -> (out: Outcome<()>)
    ensures
        exists|now: i64| plan_of(out) == #[trigger] update_ttl_plan(blob(raw), key@, ttl, now),
{
    let now = unix_now();
    update_ttl_at(key, raw, ttl, now)
}

/// Decides `set`, the ttl counted from the present instant.
pub fn set(value: &StorageValue) -> (out: Outcome<()>)
    ensures
        exists|now: i64| plan_of(out) == #[trigger] set_plan(value@, now),
{
    let now = unix_now();
    set_at(value, now)
}

/// Decides `get_all_keys` at the present instant.
pub fn get_all_keys(entries: &Vec<(Vec<u8>, Vec<u8>)>, prefix: &[u8]) -> (out: Listing)
    ensures
        exists|now: i64|
            plan_of_listing(out) == #[trigger] scan_plan(pairs(entries@), prefix@, now),
{
    let now = unix_now();
    get_all_keys_at(entries, prefix, now)
}

} // verus!
