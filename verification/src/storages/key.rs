//! Keys and the key space under a prefix.
//!
//! A key is an opaque run of bytes, ordered byte by byte. The keys under a
//! prefix are taken as the half-open range from the prefix itself up to the
//! prefix followed by one `0xFF` byte. That range holds the keys that begin
//! with the prefix, except those that go on with `0xFF`: such a byte occurs in
//! no UTF-8 text, so the range is exact for textual keys.

use vstd::prelude::*;
use vstd::slice::*;

verus! {

/// The byte that closes the range of a prefix.
pub const PREFIX_SEARCH_ENDING: u8 = 0xFF;

/// Whether `key` begins with `prefix`.
pub open spec fn has_prefix(key: Seq<u8>, prefix: Seq<u8>) -> bool {
    prefix.len() <= key.len() && key.subrange(0, prefix.len() as int) == prefix
}

/// Whether `a` sorts strictly before `b`, byte by byte; a proper prefix sorts
/// before what it is a prefix of.
pub open spec fn lex_lt(a: Seq<u8>, b: Seq<u8>) -> bool
    decreases a.len(),
{
    if b.len() == 0 {
        false
    } else if a.len() == 0 {
        true
    } else if a[0] != b[0] {
        a[0] < b[0]
    } else {
        lex_lt(a.skip(1), b.skip(1))
    }
}

/// Whether `a` sorts before `b` or is `b`.
pub open spec fn lex_le(a: Seq<u8>, b: Seq<u8>) -> bool {
    a == b || lex_lt(a, b)
}

/// The exclusive upper bound of the range of `prefix`.
pub open spec fn range_end(prefix: Seq<u8>) -> Seq<u8> {
    prefix.push(0xFFu8)
}

/// Whether `key` lies in the range of `prefix`.
pub open spec fn in_prefix_range(key: Seq<u8>, prefix: Seq<u8>) -> bool {
    lex_le(prefix, key) && lex_lt(key, range_end(prefix))
}

/// Whether `key` holds the byte `0xFF` nowhere.
pub open spec fn free_of_ending(key: Seq<u8>) -> bool {
    forall|i: int| 0 <= i < key.len() ==> #[trigger] key[i] != 0xFFu8
}

/// The range of a prefix holds exactly the keys that begin with the prefix
/// and do not go on with the byte `0xFF`.
pub proof fn lemma_prefix_range(key: Seq<u8>, prefix: Seq<u8>)
    ensures
        in_prefix_range(key, prefix) <==> has_prefix(key, prefix) && (key.len() == prefix.len()
            || key[prefix.len() as int] != 0xFFu8),
    decreases prefix.len(),
{
    let goal = has_prefix(key, prefix) && (key.len() == prefix.len() || key[prefix.len() as int]
        != 0xFFu8);
    if prefix.len() == 0 {
        assert(key.subrange(0, 0) =~= prefix);
        assert(range_end(prefix) =~= seq![0xFFu8]);
        if key.len() > 0 {
            assert(range_end(prefix).skip(1).len() == 0);
            assert(lex_lt(prefix, key));
            assert(!lex_lt(key.skip(1), range_end(prefix).skip(1)));
            assert(range_end(prefix)[0] == 0xFFu8);
            assert(lex_lt(key, range_end(prefix)) <==> key[0] != 0xFFu8);
        } else {
            assert(prefix =~= key);
            assert(lex_lt(key, range_end(prefix)));
        }
        assert(in_prefix_range(key, prefix) <==> goal);
    } else if key.len() == 0 {
        assert(!lex_lt(prefix, key));
        assert(in_prefix_range(key, prefix) <==> goal);
    } else if key[0] != prefix[0] {
        if has_prefix(key, prefix) {
            assert(key.subrange(0, prefix.len() as int)[0] == key[0]);
        }
        assert(range_end(prefix)[0] == prefix[0]);
        assert(lex_lt(prefix, key) <==> prefix[0] < key[0]);
        assert(lex_lt(key, range_end(prefix)) <==> key[0] < prefix[0]);
        assert(in_prefix_range(key, prefix) <==> goal);
    } else {
        let k = key.skip(1);
        let p = prefix.skip(1);
        lemma_prefix_range(k, p);
        assert(range_end(prefix).skip(1) =~= range_end(p));
        assert(range_end(prefix)[0] == prefix[0]);
        assert(lex_lt(prefix, key) <==> lex_lt(p, k));
        assert(lex_lt(key, range_end(prefix)) <==> lex_lt(k, range_end(p)));
        if prefix == key {
            assert(p == k);
        }
        if p == k {
            assert(prefix.len() == key.len());
            assert forall|i: int| 0 <= i < prefix.len() implies prefix[i] == key[i] by {
                if i > 0 {
                    assert(p[i - 1] == prefix[i]);
                    assert(k[i - 1] == key[i]);
                }
            }
            assert(prefix =~= key);
        }
        assert(in_prefix_range(key, prefix) <==> in_prefix_range(k, p));
        if has_prefix(key, prefix) {
            assert(k.subrange(0, p.len() as int) =~= key.subrange(0, prefix.len() as int).skip(
                1,
            ));
        }
        if has_prefix(k, p) {
            assert(key.subrange(0, prefix.len() as int) =~= seq![key[0]] + k.subrange(
                0,
                p.len() as int,
            ));
            assert(prefix =~= seq![prefix[0]] + p);
        }
        assert(has_prefix(key, prefix) <==> has_prefix(k, p));
        if key.len() > prefix.len() {
            assert(k[p.len() as int] == key[prefix.len() as int]);
        }
        assert(in_prefix_range(key, prefix) <==> goal);
    }
}

/// For a key without `0xFF`, lying in the range of a prefix is beginning with it.
pub proof fn law_prefix_range_of_text(key: Seq<u8>, prefix: Seq<u8>)
    requires
        free_of_ending(key),
    ensures
        in_prefix_range(key, prefix) <==> has_prefix(key, prefix),
{
    lemma_prefix_range(key, prefix);
}

/// No key sorts before itself.
pub proof fn lemma_lex_lt_irreflexive(a: Seq<u8>)
    ensures
        !lex_lt(a, a),
    decreases a.len(),
{
    if a.len() > 0 {
        lemma_lex_lt_irreflexive(a.skip(1));
    }
}

/// A key that begins with a prefix does not sort before the prefix.
pub proof fn lemma_prefix_sorts_first(key: Seq<u8>, prefix: Seq<u8>)
    requires
        has_prefix(key, prefix),
    ensures
        lex_le(prefix, key),
    decreases prefix.len(),
{
    if prefix.len() == 0 {
        if key.len() == 0 {
            assert(prefix =~= key);
        }
    } else {
        let k = key.skip(1);
        let p = prefix.skip(1);
        assert(key.subrange(0, prefix.len() as int)[0] == key[0]);
        assert(k.subrange(0, p.len() as int) =~= key.subrange(0, prefix.len() as int).skip(1));
        lemma_prefix_sorts_first(k, p);
        if p == k {
            assert forall|i: int| 0 <= i < prefix.len() implies prefix[i] == key[i] by {
                if i > 0 {
                    assert(p[i - 1] == prefix[i]);
                    assert(k[i - 1] == key[i]);
                }
            }
            assert(prefix =~= key);
        }
    }
}

/// Past the keys of a prefix there are no more of them: once a key that
/// does not sort before the prefix fails to begin with it, no later key
/// begins with it.
pub proof fn lemma_past_prefix(prefix: Seq<u8>, first: Seq<u8>, later: Seq<u8>)
    requires
        lex_le(prefix, first),
        !has_prefix(first, prefix),
        lex_lt(first, later),
    ensures
        !has_prefix(later, prefix),
    decreases prefix.len(),
{
    if prefix.len() == 0 {
        assert(first.subrange(0, 0) =~= prefix);
    } else if first.len() == 0 {
    } else {
        if has_prefix(later, prefix) {
            assert(later.subrange(0, prefix.len() as int)[0] == later[0]);
        }
        if first[0] == prefix[0] && later[0] == first[0] {
            let p = prefix.skip(1);
            let f = first.skip(1);
            let l = later.skip(1);
            if prefix == first {
                assert(first.subrange(0, prefix.len() as int) =~= prefix);
            }
            if has_prefix(f, p) {
                assert(first.subrange(0, prefix.len() as int) =~= seq![first[0]] + f.subrange(
                    0,
                    p.len() as int,
                ));
                assert(prefix =~= seq![prefix[0]] + p);
            }
            lemma_past_prefix(p, f, l);
            if has_prefix(later, prefix) {
                assert(l.subrange(0, p.len() as int) =~= later.subrange(
                    0,
                    prefix.len() as int,
                ).skip(1));
            }
        }
    }
}

/// Whether two runs of bytes are the same.
pub fn same_bytes(a: &[u8], b: &[u8]) -> (same: bool)
    ensures
        same <==> a@ == b@,
{
    if a.len() != b.len() {
        return false;
    }
    let mut i: usize = 0;
    while i < a.len()
        invariant
            i <= a.len(),
            a.len() == b.len(),
            forall|j: int| 0 <= j < i ==> a@[j] == b@[j],
        decreases a.len() - i,
    {
        if a[i] != b[i] {
            return false;
        }
        i = i + 1;
    }
    assert(a@ =~= b@);
    true
}

/// Whether `key` begins with `prefix`.
pub fn starts_with(key: &[u8], prefix: &[u8]) -> (yes: bool)
    ensures
        yes <==> has_prefix(key@, prefix@),
{
    if prefix.len() > key.len() {
        return false;
    }
    let mut i: usize = 0;
    while i < prefix.len()
        invariant
            i <= prefix.len() <= key.len(),
            forall|j: int| 0 <= j < i ==> key@[j] == prefix@[j],
        decreases prefix.len() - i,
    {
        if key[i] != prefix[i] {
            assert(key@.subrange(0, prefix@.len() as int)[i as int] == key@[i as int]);
            return false;
        }
        i = i + 1;
    }
    assert(key@.subrange(0, prefix@.len() as int) =~= prefix@);
    true
}

/// Whether `key` lies in the range of `prefix`, from the prefix itself up to
/// but without the prefix followed by `0xFF`.
pub fn in_range(key: &[u8], prefix: &[u8]) -> (yes: bool)
    ensures
        yes <==> in_prefix_range(key@, prefix@),
{
    proof {
        lemma_prefix_range(key@, prefix@);
    }
    starts_with(key, prefix) && (key.len() == prefix.len() || key[prefix.len()]
        != PREFIX_SEARCH_ENDING)
}

/// The exclusive upper bound of the range of `prefix`: the prefix followed by
/// one `0xFF` byte.
pub fn prefix_end(prefix: &[u8]) -> (end: Vec<u8>)
    ensures
        end@ == range_end(prefix@),
{
    let mut end = slice_to_vec(prefix);
    end.push(PREFIX_SEARCH_ENDING);
    end
}

} // verus!
