//! An engine as the decisions see it, and why the decisions keep the
//! storage contract.
//!
//! An engine is a map from keys to blobs. The backend that works through it
//! reads the blob under a key, decides, and applies the change that the
//! decision names. Read as entries, the engine is then what the storage
//! contract says the store is after the operation, and the call returns what
//! the contract says it returns.

use crate::errors::ErrorView;
use crate::storages::key::{
    has_prefix, lemma_lex_lt_irreflexive, lemma_past_prefix, lemma_prefix_sorts_first, lex_le,
    lex_lt, range_end,
};
use crate::storages::storage::{
    after_counter, after_delete, after_delete_prefix, after_read, after_scan, after_set,
    after_update_ttl, at_rest, counter_result, entry_at, expired_under, get_result,
    get_ttl_result, live_under, moved, update_ttl_result, Contents,
};
use crate::storages::transaction::{
    counter_plan, expired_keys, get_plan, get_ttl_plan, lemma_format_fits, live_keys, run_len,
    scan_plan, set_plan, undecodable, update_ttl_plan, ChangeView,
};
use crate::storages::ttl::is_live;
use crate::storages::value::{decode, integer_value, lemma_decode_encode, Entry};
use vstd::prelude::*;

verus! {

/// What an engine holds: blobs by key.
pub type Blobs = Map<Seq<u8>, Seq<u8>>;

/// The blob under `key`, if there is one: what a transaction reads.
pub open spec fn blob_at(b: Blobs, key: Seq<u8>) -> Option<Seq<u8>> {
    if b.contains_key(key) {
        Some(b[key])
    } else {
        None
    }
}

/// Whether every blob of the engine is an entry.
pub open spec fn readable(b: Blobs) -> bool {
    forall|k: Seq<u8>| b.contains_key(k) ==> decode(#[trigger] b[k]) is Some
}

/// The engine read as entries.
pub open spec fn entries_of(b: Blobs) -> Contents {
    Map::new(|k: Seq<u8>| b.contains_key(k), |k: Seq<u8>| decode(b[k])->Some_0)
}

/// The engine after a change to the blob under `key`.
pub open spec fn applied(b: Blobs, key: Seq<u8>, change: ChangeView) -> Blobs {
    match change {
        ChangeView::Keep => b,
        ChangeView::Put(blob) => b.insert(key, blob),
        ChangeView::Delete => b.remove(key),
    }
}

/// The keys that an engine's range delete from `from` up to but without `to`
/// removes.
pub open spec fn key_range(from: Seq<u8>, to: Seq<u8>) -> Set<Seq<u8>> {
    Set::new(|k: Seq<u8>| lex_le(from, k) && lex_lt(k, to))
}

/// Whether `run` is the part of the engine under `prefix`: each of its pairs
/// is in the engine, no key stands twice, and no key of the engine that
/// begins with the prefix is missing.
pub open spec fn is_part_under(run: Seq<(Seq<u8>, Seq<u8>)>, b: Blobs, prefix: Seq<u8>) -> bool {
    &&& forall|i: int|
        0 <= i < run.len() ==> b.contains_key((#[trigger] run[i]).0) && b[run[i].0] == run[i].1
            && has_prefix(run[i].0, prefix)
    &&& forall|i: int, j: int| 0 <= i < j < run.len() ==> (#[trigger] run[i]).0 != (#[trigger] run[j]).0
    &&& forall|k: Seq<u8>|
        b.contains_key(k) && has_prefix(k, prefix) ==> exists|i: int|
            0 <= i < run.len() && (#[trigger] run[i]).0 == k
}

/// A decoded entry has a value that is short enough to be stored again.
proof fn lemma_decoded_fits(data: Seq<u8>)
    requires
        decode(data) is Some,
    ensures
        decode(data)->Some_0.value.len() <= u64::MAX,
{
}

/// `get` through an engine is `get` of the contract.
pub proof fn law_get_agrees(b: Blobs, key: Seq<u8>, now: i64)
    requires
        readable(b),
    ensures
        get_plan(blob_at(b, key), now).result == Ok::<Option<Entry>, ErrorView>(
            get_result(entries_of(b), key, now),
        ),
        readable(applied(b, key, get_plan(blob_at(b, key), now).change)),
        entries_of(applied(b, key, get_plan(blob_at(b, key), now).change)) == after_read(
            entries_of(b),
            key,
            now,
        ),
{
    let after = applied(b, key, get_plan(blob_at(b, key), now).change);
    assert(entries_of(after) =~= after_read(entries_of(b), key, now));
}

/// `get_ttl` through an engine is `get_ttl` of the contract.
pub proof fn law_get_ttl_agrees(b: Blobs, key: Seq<u8>, now: i64)
    requires
        readable(b),
    ensures
        get_ttl_plan(blob_at(b, key), key, now).result == get_ttl_result(entries_of(b), key, now),
        readable(applied(b, key, get_ttl_plan(blob_at(b, key), key, now).change)),
        entries_of(applied(b, key, get_ttl_plan(blob_at(b, key), key, now).change)) == after_read(
            entries_of(b),
            key,
            now,
        ),
{
    let after = applied(b, key, get_ttl_plan(blob_at(b, key), key, now).change);
    assert(entries_of(after) =~= after_read(entries_of(b), key, now));
}

/// `update_ttl` through an engine is `update_ttl` of the contract.
pub proof fn law_update_ttl_agrees(b: Blobs, key: Seq<u8>, ttl: i64, now: i64)
    requires
        readable(b),
    ensures
        update_ttl_plan(blob_at(b, key), key, ttl, now).result == update_ttl_result(
            entries_of(b),
            key,
        ),
        readable(applied(b, key, update_ttl_plan(blob_at(b, key), key, ttl, now).change)),
        entries_of(applied(b, key, update_ttl_plan(blob_at(b, key), key, ttl, now).change))
            == after_update_ttl(entries_of(b), key, ttl, now),
{
    let plan = update_ttl_plan(blob_at(b, key), key, ttl, now);
    let after = applied(b, key, plan.change);
    if b.contains_key(key) {
        lemma_decoded_fits(b[key]);
        let e = entry_at(after_update_ttl(entries_of(b), key, ttl, now), key)->Some_0;
        lemma_decode_encode(e);
    }
    assert(entries_of(after) =~= after_update_ttl(entries_of(b), key, ttl, now));
}

/// `set` through an engine is `set` of the contract.
pub proof fn law_set_agrees(b: Blobs, key: Seq<u8>, value: Entry, now: i64)
    requires
        readable(b),
        value.value.len() <= u64::MAX,
    ensures
        set_plan(value, now).result == Ok::<(), ErrorView>(()),
        readable(applied(b, key, set_plan(value, now).change)),
        entries_of(applied(b, key, set_plan(value, now).change)) == after_set(
            entries_of(b),
            key,
            value,
            now,
        ),
{
    let after = applied(b, key, set_plan(value, now).change);
    lemma_decode_encode(at_rest(value, now));
    assert(entries_of(after) =~= after_set(entries_of(b), key, value, now));
}

/// A counter operation through an engine is that of the contract.
pub proof fn law_counter_agrees(
    b: Blobs,
    key: Seq<u8>,
    delta: i64,
    default_value: Option<i64>,
    up: bool,
)
    requires
        readable(b),
    ensures
        counter_plan(blob_at(b, key), key, delta, default_value, up).result == counter_result(
            entries_of(b),
            key,
            delta,
            default_value,
            up,
        ),
        readable(
            applied(b, key, counter_plan(blob_at(b, key), key, delta, default_value, up).change),
        ),
        entries_of(
            applied(b, key, counter_plan(blob_at(b, key), key, delta, default_value, up).change),
        ) == after_counter(entries_of(b), key, delta, default_value, up),
{
    let plan = counter_plan(blob_at(b, key), key, delta, default_value, up);
    let after = applied(b, key, plan.change);
    match counter_result(entries_of(b), key, delta, default_value, up) {
        Ok(e) => {
            let n: i64 = match entry_at(entries_of(b), key) {
                Some(current) => moved(integer_value(current)->Ok_0, delta, up),
                None => moved(default_value->Some_0, delta, up),
            };
            lemma_format_fits(n);
            lemma_decode_encode(e);
        },
        Err(_) => {},
    }
    assert(entries_of(after) =~= after_counter(entries_of(b), key, delta, default_value, up));
}

/// `delete` through an engine is `delete` of the contract.
pub proof fn law_delete_agrees(b: Blobs, key: Seq<u8>)
    requires
        readable(b),
    ensures
        readable(applied(b, key, ChangeView::Delete)),
        entries_of(applied(b, key, ChangeView::Delete)) == after_delete(entries_of(b), key),
{
    assert(entries_of(applied(b, key, ChangeView::Delete)) =~= after_delete(entries_of(b), key));
}

/// `delete_prefix` by a range delete from the prefix up to the prefix followed
/// by `0xFF` is `delete_prefix` of the contract.
pub proof fn law_delete_range_agrees(b: Blobs, prefix: Seq<u8>)
    requires
        readable(b),
    ensures
        readable(b.remove_keys(key_range(prefix, range_end(prefix)))),
        entries_of(b.remove_keys(key_range(prefix, range_end(prefix)))) == after_delete_prefix(
            entries_of(b),
            prefix,
        ),
{
    assert(entries_of(b.remove_keys(key_range(prefix, range_end(prefix))))
        =~= after_delete_prefix(entries_of(b), prefix));
}

/// A key is among the live keys of a run exactly when one of the pairs has
/// it with a live entry, and among the expired keys exactly when one has it
/// with an expired entry.
proof fn lemma_sifted(run: Seq<(Seq<u8>, Seq<u8>)>, now: i64, key: Seq<u8>)
    requires
        !undecodable(run),
    ensures
        live_keys(run, now).contains(key) <==> exists|i: int|
            0 <= i < run.len() && (#[trigger] run[i]).0 == key && is_live(
                decode(run[i].1)->Some_0.ttl,
                now,
            ),
        expired_keys(run, now).contains(key) <==> exists|i: int|
            0 <= i < run.len() && (#[trigger] run[i]).0 == key && !is_live(
                decode(run[i].1)->Some_0.ttl,
                now,
            ),
    decreases run.len(),
{
    if run.len() == 0 {
        assert(!live_keys(run, now).contains(key));
        assert(!expired_keys(run, now).contains(key));
    } else {
        let before = run.drop_last();
        let last = run.last();
        assert(!undecodable(before)) by {
            if undecodable(before) {
                let i = choose|i: int| 0 <= i < before.len() && decode(#[trigger] before[i].1) is None;
                assert(run[i] == before[i]);
            }
        }
        lemma_sifted(before, now, key);
        assert(decode(run[run.len() - 1].1) is Some);
        let e = decode(last.1)->Some_0;
        let live_b = live_keys(before, now);
        let gone_b = expired_keys(before, now);
        if is_live(e.ttl, now) {
            assert(live_keys(run, now) == live_b.push(last.0));
            assert(expired_keys(run, now) == gone_b);
        } else {
            assert(live_keys(run, now) == live_b);
            assert(expired_keys(run, now) == gone_b.push(last.0));
        }
        // from the sequences to the pairs
        if live_keys(run, now).contains(key) {
            if live_b.contains(key) {
                let i = choose|i: int|
                    0 <= i < before.len() && (#[trigger] before[i]).0 == key && is_live(
                        decode(before[i].1)->Some_0.ttl,
                        now,
                    );
                assert(run[i] == before[i]);
            } else {
                let n = choose|n: int|
                    0 <= n < live_keys(run, now).len() && live_keys(run, now)[n] == key;
                if n < live_b.len() {
                    assert(live_b[n] == key);
                }
                assert(run[run.len() - 1].0 == key);
            }
        }
        if expired_keys(run, now).contains(key) {
            if gone_b.contains(key) {
                let i = choose|i: int|
                    0 <= i < before.len() && (#[trigger] before[i]).0 == key && !is_live(
                        decode(before[i].1)->Some_0.ttl,
                        now,
                    );
                assert(run[i] == before[i]);
            } else {
                let n = choose|n: int|
                    0 <= n < expired_keys(run, now).len() && expired_keys(run, now)[n] == key;
                if n < gone_b.len() {
                    assert(gone_b[n] == key);
                }
                assert(run[run.len() - 1].0 == key);
            }
        }
        // from the pairs to the sequences
        if exists|i: int|
            0 <= i < run.len() && (#[trigger] run[i]).0 == key && is_live(
                decode(run[i].1)->Some_0.ttl,
                now,
            ) {
            let i = choose|i: int|
                0 <= i < run.len() && (#[trigger] run[i]).0 == key && is_live(
                    decode(run[i].1)->Some_0.ttl,
                    now,
                );
            if i < before.len() {
                assert(before[i] == run[i]);
                assert(live_b.contains(key));
                let n = choose|n: int| 0 <= n < live_b.len() && live_b[n] == key;
                assert(live_keys(run, now)[n] == key);
            } else {
                assert(live_keys(run, now)[live_b.len() as int] == key);
            }
        }
        if exists|i: int|
            0 <= i < run.len() && (#[trigger] run[i]).0 == key && !is_live(
                decode(run[i].1)->Some_0.ttl,
                now,
            ) {
            let i = choose|i: int|
                0 <= i < run.len() && (#[trigger] run[i]).0 == key && !is_live(
                    decode(run[i].1)->Some_0.ttl,
                    now,
                );
            if i < before.len() {
                assert(before[i] == run[i]);
                assert(gone_b.contains(key));
                let n = choose|n: int| 0 <= n < gone_b.len() && gone_b[n] == key;
                assert(expired_keys(run, now)[n] == key);
            } else {
                assert(expired_keys(run, now)[gone_b.len() as int] == key);
            }
        }
    }
}

/// Where no key stands twice in a run, none stands twice among its live keys
/// nor among its expired keys.
proof fn lemma_sifted_once(run: Seq<(Seq<u8>, Seq<u8>)>, now: i64)
    requires
        !undecodable(run),
        forall|i: int, j: int| 0 <= i < j < run.len() ==> (#[trigger] run[i]).0 != (#[trigger] run[j]).0,
    ensures
        live_keys(run, now).no_duplicates(),
        expired_keys(run, now).no_duplicates(),
    decreases run.len(),
{
    if run.len() > 0 {
        let before = run.drop_last();
        let last = run.last();
        assert(!undecodable(before)) by {
            if undecodable(before) {
                let i = choose|i: int| 0 <= i < before.len() && decode(#[trigger] before[i].1) is None;
                assert(run[i] == before[i]);
            }
        }
        assert forall|i: int, j: int| 0 <= i < j < before.len() implies (#[trigger] before[i]).0 != (
        #[trigger] before[j]).0 by {
            assert(before[i] == run[i]);
            assert(before[j] == run[j]);
        }
        lemma_sifted_once(before, now);
        lemma_sifted(before, now, last.0);
        assert(!live_keys(before, now).contains(last.0) && !expired_keys(before, now).contains(
            last.0,
        )) by {
            if exists|i: int| 0 <= i < before.len() && (#[trigger] before[i]).0 == last.0 {
                let i = choose|i: int| 0 <= i < before.len() && (#[trigger] before[i]).0 == last.0;
                assert(before[i] == run[i]);
                assert(run[run.len() - 1] == last);
            }
        }
        assert(decode(run[run.len() - 1].1) is Some);
    }
}

/// Whether `entries` is what a cursor yields that seeks to `prefix`: the
/// pairs of the engine whose keys do not sort before the prefix, each once,
/// in the order of their keys.
pub open spec fn is_cursor_from(entries: Seq<(Seq<u8>, Seq<u8>)>, b: Blobs, prefix: Seq<u8>) -> bool {
    &&& forall|i: int|
        0 <= i < entries.len() ==> b.contains_key((#[trigger] entries[i]).0) && b[entries[i].0]
            == entries[i].1 && lex_le(prefix, entries[i].0)
    &&& forall|i: int, j: int|
        0 <= i < j < entries.len() ==> lex_lt((#[trigger] entries[i]).0, (#[trigger] entries[j]).0)
    &&& forall|k: Seq<u8>|
        b.contains_key(k) && lex_le(prefix, k) ==> exists|i: int|
            0 <= i < entries.len() && (#[trigger] entries[i]).0 == k
}

/// Every key of the front run begins with the prefix, and the run ends at the
/// end of the entries or before a key that does not begin with it.
proof fn lemma_run(entries: Seq<(Seq<u8>, Seq<u8>)>, prefix: Seq<u8>)
    ensures
        run_len(entries, prefix) <= entries.len(),
        forall|i: int|
            0 <= i < run_len(entries, prefix) ==> has_prefix((#[trigger] entries[i]).0, prefix),
        run_len(entries, prefix) < entries.len() ==> !has_prefix(
            entries[run_len(entries, prefix) as int].0,
            prefix,
        ),
    decreases entries.len(),
{
    if entries.len() == 0 || !has_prefix(entries[0].0, prefix) {
    } else {
        let rest = entries.skip(1);
        lemma_run(rest, prefix);
        assert forall|i: int| 0 <= i < run_len(entries, prefix) implies has_prefix(
            (#[trigger] entries[i]).0,
            prefix,
        ) by {
            if i > 0 {
                assert(rest[i - 1] == entries[i]);
            }
        }
        if run_len(entries, prefix) < entries.len() {
            assert(rest[run_len(rest, prefix) as int] == entries[run_len(entries, prefix) as int]);
        }
    }
}

/// Why the walk may stop at the first key that does not begin with the
/// prefix: of what a cursor yields from the prefix on, the front run under the
/// prefix is all that the engine holds under it.
pub proof fn law_cursor_run(b: Blobs, entries: Seq<(Seq<u8>, Seq<u8>)>, prefix: Seq<u8>)
    requires
        is_cursor_from(entries, b, prefix),
    ensures
        is_part_under(entries.take(run_len(entries, prefix) as int), b, prefix),
{
    lemma_run(entries, prefix);
    let n = run_len(entries, prefix) as int;
    let run = entries.take(n);
    assert forall|i: int| 0 <= i < run.len() implies b.contains_key((#[trigger] run[i]).0)
        && b[run[i].0] == run[i].1 && has_prefix(run[i].0, prefix) by {
        assert(run[i] == entries[i]);
    }
    assert forall|i: int, j: int| 0 <= i < j < run.len() implies (#[trigger] run[i]).0 != (
    #[trigger] run[j]).0 by {
        assert(run[i] == entries[i]);
        assert(run[j] == entries[j]);
        lemma_lex_lt_irreflexive(entries[i].0);
    }
    assert forall|k: Seq<u8>| b.contains_key(k) && has_prefix(k, prefix) implies exists|i: int|
        0 <= i < run.len() && (#[trigger] run[i]).0 == k by {
        lemma_prefix_sorts_first(k, prefix);
        let i = choose|i: int| 0 <= i < entries.len() && (#[trigger] entries[i]).0 == k;
        if i >= n {
            if i > n {
                lemma_past_prefix(prefix, entries[n].0, entries[i].0);
            }
            assert(false);
        }
        assert(run[i] == entries[i]);
    }
}

/// `get_all_keys` through an engine is `get_all_keys` of the contract: where
/// the front run of what the cursor yielded is the part of the engine under
/// the prefix, the scan removes the entries that have expired under the prefix
/// and lists the keys that are live under it, each once.
pub proof fn law_scan_agrees(
    b: Blobs,
    entries: Seq<(Seq<u8>, Seq<u8>)>,
    prefix: Seq<u8>,
    now: i64,
)
    requires
        readable(b),
        is_part_under(entries.take(run_len(entries, prefix) as int), b, prefix),
    ensures
        ({
            let run = entries.take(run_len(entries, prefix) as int);
            let plan = scan_plan(entries, prefix, now);
            &&& !undecodable(run)
            &&& plan.expired == expired_keys(run, now)
            &&& plan.expired.no_duplicates()
            &&& plan.expired.to_set() == expired_under(entries_of(b), prefix, now)
            &&& live_keys(run, now).no_duplicates()
            &&& live_keys(run, now).to_set() == live_under(entries_of(b), prefix, now)
            &&& plan.result is Ok ==> plan.result == Ok::<Seq<Seq<u8>>, ErrorView>(
                live_keys(run, now),
            )
            &&& readable(b.remove_keys(plan.expired.to_set()))
            &&& entries_of(b.remove_keys(plan.expired.to_set())) == after_scan(
                entries_of(b),
                prefix,
                now,
            )
        }),
{
    let run = entries.take(run_len(entries, prefix) as int);
    let plan = scan_plan(entries, prefix, now);
    assert(!undecodable(run)) by {
        if undecodable(run) {
            let i = choose|i: int| 0 <= i < run.len() && decode(#[trigger] run[i].1) is None;
            assert(b.contains_key(run[i].0));
            assert(decode(b[run[i].0]) is Some);
        }
    }
    lemma_sifted_once(run, now);
    let s = entries_of(b);
    assert forall|k: Seq<u8>|
        plan.expired.to_set().contains(k) <==> expired_under(s, prefix, now).contains(k) by {
        lemma_sifted(run, now, k);
        if expired_under(s, prefix, now).contains(k) {
            let i = choose|i: int| 0 <= i < run.len() && (#[trigger] run[i]).0 == k;
            assert(b[run[i].0] == run[i].1);
        }
        if plan.expired.contains(k) {
            let i = choose|i: int|
                0 <= i < run.len() && (#[trigger] run[i]).0 == k && !is_live(
                    decode(run[i].1)->Some_0.ttl,
                    now,
                );
            assert(b[run[i].0] == run[i].1);
        }
    }
    assert(plan.expired.to_set() =~= expired_under(s, prefix, now));
    assert forall|k: Seq<u8>|
        live_keys(run, now).to_set().contains(k) <==> live_under(s, prefix, now).contains(k) by {
        lemma_sifted(run, now, k);
        if live_under(s, prefix, now).contains(k) {
            let i = choose|i: int| 0 <= i < run.len() && (#[trigger] run[i]).0 == k;
            assert(b[run[i].0] == run[i].1);
        }
        if live_keys(run, now).contains(k) {
            let i = choose|i: int|
                0 <= i < run.len() && (#[trigger] run[i]).0 == k && is_live(
                    decode(run[i].1)->Some_0.ttl,
                    now,
                );
            assert(b[run[i].0] == run[i].1);
        }
    }
    assert(live_keys(run, now).to_set() =~= live_under(s, prefix, now));
    assert(entries_of(b.remove_keys(plan.expired.to_set())) =~= after_scan(s, prefix, now));
}

} // verus!
