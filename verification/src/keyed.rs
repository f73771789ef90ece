//! Sequences of entries that are found by a key, and the finite map that
//! such a sequence stands for when no key occurs twice.

use vstd::prelude::*;

verus! {

/// An entry that is found by a key.
pub trait Keyed {
    type Key;

    spec fn key(&self) -> Self::Key;
}

/// Whether some entry of `s` has key `k`.
pub open spec fn has_key<E: Keyed>(s: Seq<E>, k: E::Key) -> bool {
    exists|i: int| 0 <= i < s.len() && #[trigger] s[i].key() == k
}

/// The place of an entry with key `k` in `s`.
pub open spec fn index_of<E: Keyed>(s: Seq<E>, k: E::Key) -> int {
    choose|i: int| 0 <= i < s.len() && #[trigger] s[i].key() == k
}

/// Whether no key occurs twice in `s`.
pub open spec fn distinct<E: Keyed>(s: Seq<E>) -> bool {
    forall|i: int, j: int|
        0 <= i < s.len() && 0 <= j < s.len() && i != j ==> #[trigger] s[i].key()
            != #[trigger] s[j].key()
}

/// The map from each key in `s` to its entry.
pub open spec fn as_map<E: Keyed>(s: Seq<E>) -> Map<E::Key, E> {
    Map::new(|k: E::Key| has_key(s, k), |k: E::Key| s[index_of(s, k)])
}

/// The entry at `i` is what the map holds under its key.
pub proof fn lemma_entry<E: Keyed>(s: Seq<E>, i: int)
    requires
        distinct(s),
        0 <= i < s.len(),
    ensures
        as_map(s).contains_key(s[i].key()),
        as_map(s)[s[i].key()] == s[i],
{
    let k = s[i].key();
    assert(has_key(s, k));
    let j = index_of(s, k);
    assert(0 <= j < s.len() && s[j].key() == k);
    assert(j == i);
}

/// A key that no entry has is not in the map.
pub proof fn lemma_absent<E: Keyed>(s: Seq<E>, k: E::Key)
    requires
        forall|i: int| 0 <= i < s.len() ==> #[trigger] s[i].key() != k,
    ensures
        !as_map(s).contains_key(k),
{
}

/// Every key of the map is the key of some entry.
pub proof fn lemma_present<E: Keyed>(s: Seq<E>, k: E::Key) -> (i: int)
    requires
        as_map(s).contains_key(k),
    ensures
        0 <= i < s.len(),
        s[i].key() == k,
        as_map(s)[k] == s[i],
{
    index_of(s, k)
}

/// Appending an entry with a new key inserts it into the map.
pub proof fn lemma_push<E: Keyed>(s: Seq<E>, e: E)
    requires
        distinct(s),
        !as_map(s).contains_key(e.key()),
    ensures
        distinct(s.push(e)),
        as_map(s.push(e)) == as_map(s).insert(e.key(), e),
{
    let t = s.push(e);
    assert forall|i: int, j: int| 0 <= i < t.len() && 0 <= j < t.len() && i != j implies t[i].key()
        != t[j].key() by {
        if i < s.len() {
            assert(has_key(s, s[i].key()));
        }
        if j < s.len() {
            assert(has_key(s, s[j].key()));
        }
    }
    assert forall|k: E::Key| as_map(t).contains_key(k) <==> as_map(s).insert(
        e.key(),
        e,
    ).contains_key(k) by {
        if has_key(t, k) {
            let i = index_of(t, k);
            if i < s.len() {
                assert(s[i].key() == k);
            }
        }
        if has_key(s, k) {
            let i = index_of(s, k);
            assert(t[i].key() == k);
        }
        if k == e.key() {
            assert(t[s.len() as int].key() == k);
        }
    }
    assert forall|k: E::Key| as_map(t).contains_key(k) implies as_map(t)[k] == as_map(s).insert(
        e.key(),
        e,
    )[k] by {
        let i = index_of(t, k);
        lemma_entry(t, i);
        if i < s.len() {
            lemma_entry(s, i);
        }
    }
    assert(as_map(t) =~= as_map(s).insert(e.key(), e));
}

/// Replacing an entry by one with the same key replaces it in the map.
pub proof fn lemma_update<E: Keyed>(s: Seq<E>, i: int, e: E)
    requires
        distinct(s),
        0 <= i < s.len(),
        e.key() == s[i].key(),
    ensures
        distinct(s.update(i, e)),
        as_map(s.update(i, e)) == as_map(s).insert(e.key(), e),
{
    let t = s.update(i, e);
    assert forall|a: int, b: int| 0 <= a < t.len() && 0 <= b < t.len() && a != b implies t[a].key()
        != t[b].key() by {
        assert(t[a].key() == s[a].key());
        assert(t[b].key() == s[b].key());
    }
    assert forall|k: E::Key| as_map(t).contains_key(k) <==> as_map(s).insert(
        e.key(),
        e,
    ).contains_key(k) by {
        if has_key(t, k) {
            let j = index_of(t, k);
            assert(s[j].key() == k);
        }
        if has_key(s, k) {
            let j = index_of(s, k);
            assert(t[j].key() == k);
        }
        if k == e.key() {
            assert(t[i].key() == k);
        }
    }
    assert forall|k: E::Key| as_map(t).contains_key(k) implies as_map(t)[k] == as_map(s).insert(
        e.key(),
        e,
    )[k] by {
        let j = index_of(t, k);
        lemma_entry(t, j);
        assert(s[j].key() == k);
        lemma_entry(s, j);
    }
    assert(as_map(t) =~= as_map(s).insert(e.key(), e));
}

/// Taking an entry out removes its key from the map.
pub proof fn lemma_remove<E: Keyed>(s: Seq<E>, i: int)
    requires
        distinct(s),
        0 <= i < s.len(),
    ensures
        distinct(s.remove(i)),
        as_map(s.remove(i)) == as_map(s).remove(s[i].key()),
{
    let t = s.remove(i);
    assert forall|a: int| 0 <= a < t.len() implies #[trigger] t[a] == s[if a < i {
        a
    } else {
        a + 1
    }] by {}
    assert forall|a: int, b: int| 0 <= a < t.len() && 0 <= b < t.len() && a != b implies t[a].key()
        != t[b].key() by {
        let a2 = if a < i { a } else { a + 1 };
        let b2 = if b < i { b } else { b + 1 };
        assert(t[a] == s[a2]);
        assert(t[b] == s[b2]);
    }
    assert forall|k: E::Key| as_map(t).contains_key(k) <==> as_map(s).remove(
        s[i].key(),
    ).contains_key(k) by {
        if has_key(t, k) {
            let j = index_of(t, k);
            let j2 = if j < i { j } else { j + 1 };
            assert(t[j] == s[j2]);
            assert(s[j2].key() == k);
        }
        if has_key(s, k) && k != s[i].key() {
            let j = index_of(s, k);
            let j2 = if j < i { j } else { j - 1 };
            assert(t[j2] == s[j]);
            assert(t[j2].key() == k);
        }
    }
    assert forall|k: E::Key| as_map(t).contains_key(k) implies as_map(t)[k] == as_map(s).remove(
        s[i].key(),
    )[k] by {
        let j = index_of(t, k);
        let j2 = if j < i { j } else { j + 1 };
        lemma_entry(t, j);
        assert(t[j] == s[j2]);
        lemma_entry(s, j2);
    }
    assert(as_map(t) =~= as_map(s).remove(s[i].key()));
}

} // verus!
