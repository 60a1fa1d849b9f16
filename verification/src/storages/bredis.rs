//! The in-memory backend.
//!
//! The entries stand in a vector, each key once, in the order in which the
//! keys were first written. Every operation is a walk over that vector.

use crate::errors::{lift, DatabaseError, ErrorView};
use crate::storages::counter::count;
use crate::storages::key::{has_prefix, in_prefix_range, in_range, same_bytes, starts_with};
use crate::storages::storage::{
    after_counter, after_scan, all_text, counter_result, entry_at, expired_under, key_not_text,
    keys_in_range, lift_option, lift_value, listed_keys, lists, live_under, Contents, Storage,
};
use crate::storages::ttl::{is_live, normalize, remaining};
use crate::storages::value::{Entry, StorageValue};
use crate::text::{lossy, utf8_text};
use vstd::prelude::*;
use vstd::slice::*;
use vstd::utf8::*;

verus! {

/// One entry of the store with its key.
struct Slot {
    key: Vec<u8>,
    value: StorageValue,
}

/// A store that lives in memory and is gone with the process.
pub struct Bredis {
    store: Vec<Slot>,
}

/// Which entries a sweep removes.
enum Sweep {
    /// Those whose key lies in the range of the prefix.
    Range,
    /// Those whose key begins with the prefix and that have expired at the instant.
    Expired(i64),
}

/// Whether no key stands twice in `s`.
spec fn distinct(s: Seq<Slot>) -> bool {
    forall|i: int, j: int| 0 <= i < j < s.len() ==> s[i].key@ != s[j].key@
}

/// Whether `key` stands in `s`.
spec fn holds(s: Seq<Slot>, key: Seq<u8>) -> bool {
    exists|i: int| 0 <= i < s.len() && #[trigger] s[i].key@ == key
}

/// A place at which `key` stands in `s`.
spec fn place(s: Seq<Slot>, key: Seq<u8>) -> int {
    choose|i: int| 0 <= i < s.len() && #[trigger] s[i].key@ == key
}

/// The map that the slots stand for.
spec fn as_map(s: Seq<Slot>) -> Contents {
    Map::new(|k: Seq<u8>| holds(s, k), |k: Seq<u8>| s[place(s, k)].value@)
}

/// Whether a sweep removes the entry `e` under `key`.
spec fn doomed(sweep: Sweep, prefix: Seq<u8>, key: Seq<u8>, e: Entry) -> bool {
    match sweep {
        Sweep::Range => in_prefix_range(key, prefix),
        Sweep::Expired(now) => has_prefix(key, prefix) && !is_live(e.ttl, now),
    }
}

/// The keys that a sweep removes from `s`.
spec fn swept(s: Contents, sweep: Sweep, prefix: Seq<u8>) -> Set<Seq<u8>> {
    Set::new(|k: Seq<u8>| s.contains_key(k) && doomed(sweep, prefix, k, s[k]))
}

/// The keys of `s` that begin with `prefix`.
spec fn under(s: Contents, prefix: Seq<u8>) -> Set<Seq<u8>> {
    Set::new(|k: Seq<u8>| s.contains_key(k) && has_prefix(k, prefix))
}

/// A slot is in the map under its key, with its value.
proof fn lemma_at(s: Seq<Slot>, i: int)
    requires
        distinct(s),
        0 <= i < s.len(),
    ensures
        as_map(s).contains_key(s[i].key@),
        as_map(s)[s[i].key@] == s[i].value@,
{
    let k = s[i].key@;
    assert(holds(s, k));
    let j = place(s, k);
    assert(j == i);
}

/// A key of the map stands in some slot.
proof fn lemma_held(s: Seq<Slot>, key: Seq<u8>)
    requires
        distinct(s),
        as_map(s).contains_key(key),
    ensures
        0 <= place(s, key) < s.len(),
        s[place(s, key)].key@ == key,
        as_map(s)[key] == s[place(s, key)].value@,
{
}

/// A slot with a new key, put at the end, is an insertion into the map.
proof fn lemma_push(s: Seq<Slot>, slot: Slot)
    requires
        distinct(s),
        !holds(s, slot.key@),
    ensures
        distinct(s.push(slot)),
        as_map(s.push(slot)) == as_map(s).insert(slot.key@, slot.value@),
{
    let t = s.push(slot);
    assert forall|i: int, j: int| 0 <= i < j < t.len() implies t[i].key@ != t[j].key@ by {
        if j == s.len() {
            assert(s[i].key@ == t[i].key@);
        }
    }
    let want = as_map(s).insert(slot.key@, slot.value@);
    assert forall|k: Seq<u8>| as_map(t).contains_key(k) <==> want.contains_key(k) by {
        if holds(t, k) {
            let i = place(t, k);
            if i < s.len() {
                assert(s[i].key@ == k);
            }
        }
        if holds(s, k) {
            let i = place(s, k);
            assert(t[i].key@ == k);
        }
        if k == slot.key@ {
            assert(t[s.len() as int].key@ == k);
        }
    }
    assert forall|k: Seq<u8>| as_map(t).contains_key(k) implies as_map(t)[k] == want[k] by {
        let i = place(t, k);
        lemma_at(t, i);
        if i < s.len() {
            lemma_at(s, i);
        }
    }
    assert(as_map(t) =~= want);
}

/// A new value in a slot is an insertion into the map under the slot's key.
proof fn lemma_update(s: Seq<Slot>, i: int, slot: Slot)
    requires
        distinct(s),
        0 <= i < s.len(),
        slot.key@ == s[i].key@,
    ensures
        distinct(s.update(i, slot)),
        as_map(s.update(i, slot)) == as_map(s).insert(slot.key@, slot.value@),
{
    let t = s.update(i, slot);
    assert forall|a: int, b: int| 0 <= a < b < t.len() implies t[a].key@ != t[b].key@ by {
        assert(t[a].key@ == s[a].key@);
        assert(t[b].key@ == s[b].key@);
    }
    let want = as_map(s).insert(slot.key@, slot.value@);
    assert forall|k: Seq<u8>| as_map(t).contains_key(k) <==> want.contains_key(k) by {
        if holds(t, k) {
            let j = place(t, k);
            assert(s[j].key@ == k);
        }
        if holds(s, k) {
            let j = place(s, k);
            assert(t[j].key@ == k);
        }
        if k == slot.key@ {
            assert(t[i].key@ == k);
        }
    }
    assert forall|k: Seq<u8>| as_map(t).contains_key(k) implies as_map(t)[k] == want[k] by {
        let j = place(t, k);
        lemma_at(t, j);
        if j != i {
            assert(s[j].key@ == k);
            lemma_at(s, j);
        }
    }
    assert(as_map(t) =~= want);
}

/// A slot taken out is a removal of its key from the map.
proof fn lemma_remove(s: Seq<Slot>, i: int)
    requires
        distinct(s),
        0 <= i < s.len(),
    ensures
        distinct(s.remove(i)),
        as_map(s.remove(i)) == as_map(s).remove(s[i].key@),
{
    let t = s.remove(i);
    assert forall|a: int, b: int| 0 <= a < b < t.len() implies t[a].key@ != t[b].key@ by {
        let a0 = if a < i {
            a
        } else {
            a + 1
        };
        let b0 = if b < i {
            b
        } else {
            b + 1
        };
        assert(t[a] == s[a0]);
        assert(t[b] == s[b0]);
    }
    let want = as_map(s).remove(s[i].key@);
    assert forall|k: Seq<u8>| as_map(t).contains_key(k) <==> want.contains_key(k) by {
        if holds(t, k) {
            let j = place(t, k);
            let j0 = if j < i {
                j
            } else {
                j + 1
            };
            assert(t[j] == s[j0]);
            assert(s[j0].key@ == k);
        }
        if holds(s, k) && k != s[i].key@ {
            let j0 = place(s, k);
            let j = if j0 < i {
                j0
            } else {
                j0 - 1
            };
            assert(t[j] == s[j0]);
            assert(t[j].key@ == k);
        }
    }
    assert forall|k: Seq<u8>| as_map(t).contains_key(k) implies as_map(t)[k] == want[k] by {
        let j = place(t, k);
        lemma_at(t, j);
        let j0 = if j < i {
            j
        } else {
            j + 1
        };
        assert(t[j] == s[j0]);
        lemma_at(s, j0);
    }
    assert(as_map(t) =~= want);
}

/// Once the expired entries under a prefix are gone, what is left under the
/// prefix is what was live under it.
proof fn lemma_under_after_scan(s: Contents, prefix: Seq<u8>, now: i64)
    ensures
        under(after_scan(s, prefix, now), prefix) == live_under(s, prefix, now),
{
    assert(under(after_scan(s, prefix, now), prefix) =~= live_under(s, prefix, now));
}

/// The place of `key` among the slots, if it is there.
fn find(store: &Vec<Slot>, key: &[u8]) -> (at: Option<usize>)
    ensures
        at matches Some(i) ==> i < store@.len() && store@[i as int].key@ == key@,
        at is None ==> !holds(store@, key@),
{
    let mut i: usize = 0;
    while i < store.len()
        invariant
            i <= store@.len(),
            forall|j: int| 0 <= j < i ==> store@[j].key@ != key@,
        decreases store@.len() - i,
    {
        if same_bytes(store[i].key.as_slice(), key) {
            return Some(i);
        }
        i = i + 1;
    }
    None
}

/// Puts `value` under `key`, over what may be there.
fn put(store: &mut Vec<Slot>, key: &[u8], value: StorageValue)
    requires
        distinct(old(store)@),
    ensures
        distinct(final(store)@),
        as_map(final(store)@) == as_map(old(store)@).insert(key@, value@),
{
    let slot = Slot { key: slice_to_vec(key), value };
    match find(store, key) {
        Some(i) => {
            proof {
                lemma_update(store@, i as int, slot);
            }
            store.set(i, slot);
        },
        None => {
            proof {
                lemma_push(store@, slot);
            }
            store.push(slot);
        },
    }
}

/// Takes `key` out, if it is there.
fn take(store: &mut Vec<Slot>, key: &[u8])
    requires
        distinct(old(store)@),
    ensures
        distinct(final(store)@),
        as_map(final(store)@) == as_map(old(store)@).remove(key@),
{
    match find(store, key) {
        Some(i) => {
            proof {
                lemma_remove(store@, i as int);
            }
            store.remove(i);
        },
        None => {
            assert(as_map(store@).remove(key@) =~= as_map(store@));
        },
    }
}

/// A copy of the entry under `key`, as it is kept.
fn peek(store: &Vec<Slot>, key: &[u8]) -> (found: Option<StorageValue>)
    requires
        distinct(store@),
    ensures
        lift_option(found) == entry_at(as_map(store@), key@),
{
    match find(store, key) {
        Some(i) => {
            proof {
                lemma_at(store@, i as int);
            }
            Some(store[i].value.clone())
        },
        None => None,
    }
}

/// Removes the entries that `sweep` names.
fn sweep_away(store: &mut Vec<Slot>, sweep: Sweep, prefix: &[u8])
    requires
        distinct(old(store)@),
    ensures
        distinct(final(store)@),
        as_map(final(store)@) == as_map(old(store)@).remove_keys(
            swept(as_map(old(store)@), sweep, prefix@),
        ),
{
    let ghost before = as_map(store@);
    let mut i: usize = 0;
    while i < store.len()
        invariant
            i <= store@.len(),
            distinct(store@),
            before == as_map(old(store)@),
            forall|k: Seq<u8>| #[trigger]
                as_map(store@).contains_key(k) ==> before.contains_key(k) && before[k] == as_map(
                    store@,
                )[k],
            forall|k: Seq<u8>|
                before.contains_key(k) && !(#[trigger] as_map(store@).contains_key(k)) ==> doomed(
                    sweep,
                    prefix@,
                    k,
                    before[k],
                ),
            forall|j: int|
                0 <= j < i ==> !doomed(
                    sweep,
                    prefix@,
                    (#[trigger] store@[j]).key@,
                    store@[j].value@,
                ),
        decreases store@.len() - i,
    {
        let slot = &store[i];
        let gone = match sweep {
            Sweep::Range => in_range(slot.key.as_slice(), prefix),
            Sweep::Expired(now) => starts_with(slot.key.as_slice(), prefix) && remaining(
                slot.value.ttl,
                now,
            ).is_none(),
        };
        proof {
            lemma_at(store@, i as int);
        }
        if gone {
            proof {
                lemma_remove(store@, i as int);
            }
            store.remove(i);
        } else {
            i = i + 1;
        }
    }
    proof {
        let after = as_map(store@);
        let want = before.remove_keys(swept(before, sweep, prefix@));
        assert forall|k: Seq<u8>| after.contains_key(k) <==> want.contains_key(k) by {
            if after.contains_key(k) {
                lemma_held(store@, k);
            }
        }
        assert(after =~= want);
    }
}

/// Lists the keys that begin with `prefix`, as text.
fn list(store: &Vec<Slot>, prefix: &[u8]) -> (r: Result<Vec<String>, DatabaseError>)
    requires
        distinct(store@),
    ensures
        all_text(under(as_map(store@), prefix@)) ==> (r matches Ok(names) && lists(
            names@,
            under(as_map(store@), prefix@),
        )),
        !all_text(under(as_map(store@), prefix@)) ==> lift(r) == Err::<Vec<String>, ErrorView>(
            key_not_text(),
        ),
{
    let mut names: Vec<String> = Vec::new();
    let ghost mut from: Seq<int> = Seq::empty();
    let mut i: usize = 0;
    while i < store.len()
        invariant
            i <= store@.len(),
            distinct(store@),
            from.len() == names@.len(),
            forall|n: int|
                0 <= n < from.len() ==> 0 <= #[trigger] from[n] < i && has_prefix(
                    store@[from[n]].key@,
                    prefix@,
                ) && encode_utf8(names@[n]@) == store@[from[n]].key@,
            forall|m: int, n: int| 0 <= m < n < from.len() ==> from[m] < from[n],
            forall|j: int|
                0 <= j < i && has_prefix((#[trigger] store@[j]).key@, prefix@) ==> valid_utf8(
                    store@[j].key@,
                ) && exists|n: int| 0 <= n < from.len() && #[trigger] from[n] == j,
        decreases store@.len() - i,
    {
        let slot = &store[i];
        if starts_with(slot.key.as_slice(), prefix) {
            match utf8_text(slot.key.as_slice()) {
                Some(name) => {
                    proof {
                        decode_utf8_encode_utf8(slot.key@);
                        let ghost grown = from.push(i as int);
                        assert(grown[from.len() as int] == i);
                        assert forall|j: int|
                            0 <= j < i + 1 && has_prefix(
                                (#[trigger] store@[j]).key@,
                                prefix@,
                            ) implies valid_utf8(store@[j].key@) && exists|n: int|
                            0 <= n < grown.len() && #[trigger] grown[n] == j by {
                            if j < i {
                                let n = choose|n: int|
                                    0 <= n < from.len() && #[trigger] from[n] == j;
                                assert(grown[n] == j);
                            }
                        }
                        from = grown;
                    }
                    names.push(name);
                },
                None => {
                    proof {
                        lemma_at(store@, i as int);
                        assert(under(as_map(store@), prefix@).contains(slot.key@));
                    }
                    return Err(DatabaseError::InternalError("Key is not valid UTF-8".to_owned()));
                },
            }
        }
        i = i + 1;
    }
    proof {
        let keys = under(as_map(store@), prefix@);
        let listed = listed_keys(names@);
        assert forall|n: int| 0 <= n < listed.len() implies #[trigger] listed[n]
            == store@[from[n]].key@ by {}
        assert forall|k: Seq<u8>| keys.contains(k) implies valid_utf8(k) && listed.contains(
            k,
        ) by {
            lemma_held(store@, k);
            let j = place(store@, k);
            assert(has_prefix(store@[j].key@, prefix@));
            let n = choose|n: int| 0 <= n < from.len() && #[trigger] from[n] == j;
            assert(listed[n] == k);
        }
        assert forall|k: Seq<u8>| listed.contains(k) implies keys.contains(k) by {
            let n = choose|n: int| 0 <= n < listed.len() && listed[n] == k;
            lemma_at(store@, from[n]);
        }
        assert(listed.to_set() =~= keys);
        assert forall|m: int, n: int| 0 <= m < n < listed.len() implies listed[m]
            != listed[n] by {
            assert(from[m] < from[n]);
        }
    }
    Ok(names)
}

impl Bredis {
    /// Whether no key stands twice: what every operation keeps true.
    #[verifier::type_invariant]
    spec fn well_formed(&self) -> bool {
        distinct(self.store@)
    }

    /// An empty store.
    pub fn open() -> (db: Self)
        ensures
            db.contents() == Map::<Seq<u8>, Entry>::empty(),
    {
        let db = Bredis { store: Vec::new() };
        assert(as_map(db.store@) =~= Map::<Seq<u8>, Entry>::empty());
        db
    }

    /// A copy of the entry under `key`, as it is kept.
    fn entry(&self, key: &[u8]) -> (found: Option<StorageValue>)
        ensures
            lift_option(found) == entry_at(self.contents(), key@),
    {
        proof {
            use_type_invariant(self);
        }
        peek(&self.store, key)
    }

    /// Puts `value` under `key`, over what may be there.
    fn insert(&mut self, key: &[u8], value: StorageValue)
        ensures
            final(self).contents() == old(self).contents().insert(key@, value@),
    {
        proof {
            use_type_invariant(&*self);
        }
        let mut store: Vec<Slot> = Vec::new();
        core::mem::swap(&mut self.store, &mut store);
        put(&mut store, key, value);
        self.store = store;
    }

    /// Takes `key` out, if it is there.
    fn remove(&mut self, key: &[u8])
        ensures
            final(self).contents() == old(self).contents().remove(key@),
    {
        proof {
            use_type_invariant(&*self);
        }
        let mut store: Vec<Slot> = Vec::new();
        core::mem::swap(&mut self.store, &mut store);
        take(&mut store, key);
        self.store = store;
    }

    /// Removes the entries that `sweep` names.
    fn sweep(&mut self, sweep: Sweep, prefix: &[u8])
        ensures
            final(self).contents() == old(self).contents().remove_keys(
                swept(old(self).contents(), sweep, prefix@),
            ),
    {
        proof {
            use_type_invariant(&*self);
        }
        let mut store: Vec<Slot> = Vec::new();
        core::mem::swap(&mut self.store, &mut store);
        sweep_away(&mut store, sweep, prefix);
        self.store = store;
    }

    /// Lists the keys that begin with `prefix`, as text.
    fn list(&self, prefix: &[u8]) -> (r: Result<Vec<String>, DatabaseError>)
        ensures
            all_text(under(self.contents(), prefix@)) ==> (r matches Ok(names) && lists(
                names@,
                under(self.contents(), prefix@),
            )),
            !all_text(under(self.contents(), prefix@)) ==> lift(r) == Err::<
                Vec<String>,
                ErrorView,
            >(key_not_text()),
    {
        proof {
            use_type_invariant(self);
        }
        list(&self.store, prefix)
    }

    /// Moves the counter under `key` by `delta`, up or down.
    fn count(&mut self, key: &[u8], delta: i64, default_value: Option<i64>, up: bool) -> (r:
        Result<StorageValue, DatabaseError>)
        ensures
            final(self).contents() == after_counter(
                old(self).contents(),
                key@,
                delta,
                default_value,
                up,
            ),
            lift_value(r) == counter_result(old(self).contents(), key@, delta, default_value, up),
    {
        let entry = match count(self.entry(key), key, delta, default_value, up) {
            Ok(entry) => entry,
            Err(failure) => {
                return Err(failure);
            },
        };
        self.insert(key, entry.clone());
        Ok(entry)
    }
}

impl Storage for Bredis {
    closed spec fn contents(&self) -> Contents {
        as_map(self.store@)
    }

    fn close(&mut self) {
    }

    fn get_at(&mut self, key: &[u8], now: i64) -> (r: Result<Option<StorageValue>, DatabaseError>) {
        match self.entry(key) {
            Some(kept) => match remaining(kept.ttl, now) {
                Some(left) => Ok(
                    Some(StorageValue { value_type: kept.value_type, ttl: left, value: kept.value }),
                ),
                None => {
                    self.remove(key);
                    Ok(None)
                },
            },
            None => Ok(None),
        }
    }

    fn get_all_keys_at(&mut self, prefix: &[u8], now: i64) -> (r: Result<
        Vec<String>,
        DatabaseError,
    >) {
        self.sweep(Sweep::Expired(now), prefix);
        proof {
            assert(swept(old(self).contents(), Sweep::Expired(now), prefix@) =~= expired_under(
                old(self).contents(),
                prefix@,
                now,
            ));
            lemma_under_after_scan(old(self).contents(), prefix@, now);
        }
        self.list(prefix)
    }

    fn get_ttl_at(&mut self, key: &[u8], now: i64) -> (r: Result<i64, DatabaseError>) {
        match self.entry(key) {
            Some(kept) => match remaining(kept.ttl, now) {
                Some(left) => Ok(left),
                None => {
                    self.remove(key);
                    Err(DatabaseError::ValueNotFound(lossy(key)))
                },
            },
            None => Err(DatabaseError::ValueNotFound(lossy(key))),
        }
    }

    fn update_ttl_at(&mut self, key: &[u8], ttl: i64, now: i64) -> (r: Result<(), DatabaseError>) {
        match self.entry(key) {
            Some(kept) => {
                self.insert(
                    key,
                    StorageValue {
                        value_type: kept.value_type,
                        ttl: normalize(ttl, now),
                        value: kept.value,
                    },
                );
                Ok(())
            },
            None => Err(DatabaseError::ValueNotFound(lossy(key))),
        }
    }

    fn set_at(&mut self, key: &[u8], value: &StorageValue, now: i64) -> (r: Result<
        (),
        DatabaseError,
    >) {
        self.insert(
            key,
            StorageValue {
                value_type: value.value_type,
                ttl: normalize(value.ttl, now),
                value: slice_to_vec(value.value.as_slice()),
            },
        );
        Ok(())
    }

    fn increment(&mut self, key: &[u8], value: i64, default_value: Option<i64>) -> (r: Result<
        StorageValue,
        DatabaseError,
    >) {
        self.count(key, value, default_value, true)
    }

    fn decrement(&mut self, key: &[u8], value: i64, default_value: Option<i64>) -> (r: Result<
        StorageValue,
        DatabaseError,
    >) {
        self.count(key, value, default_value, false)
    }

    fn delete(&mut self, key: &[u8]) -> (r: Result<(), DatabaseError>) {
        self.remove(key);
        Ok(())
    }

    fn delete_prefix(&mut self, prefix: &[u8]) -> (r: Result<(), DatabaseError>) {
        self.sweep(Sweep::Range, prefix);
        proof {
            assert(swept(old(self).contents(), Sweep::Range, prefix@) =~= keys_in_range(
                old(self).contents(),
                prefix@,
            ));
        }
        Ok(())
    }
}

} // verus!
