//! Association lists: keyed values in a fixed order, as the model of the
//! library's maps.
//!
//! A lookup sees the first entry of a key. Storing a value under a key that
//! the list has replaces the value in place, so that a list in which no key
//! occurs twice stays so.

use vstd::prelude::*;

verus! {

/// The index of the first entry at or after `from` that has the key, or the
/// length of `entries` where there is none.
pub open spec fn position_from<K, V>(entries: Seq<(K, V)>, key: K, from: int) -> int
    decreases entries.len() - from,
{
    if from < 0 || from >= entries.len() {
        entries.len() as int
    } else if entries[from].0 == key {
        from
    } else {
        position_from(entries, key, from + 1)
    }
}

/// The index of the first entry that has the key, or the length of `entries`
/// where there is none.
pub open spec fn position<K, V>(entries: Seq<(K, V)>, key: K) -> int {
    position_from(entries, key, 0)
}

/// Whether an entry has the key.
pub open spec fn has_key<K, V>(entries: Seq<(K, V)>, key: K) -> bool {
    position(entries, key) < entries.len()
}

/// The value of the first entry that has the key.
pub open spec fn lookup<K, V>(entries: Seq<(K, V)>, key: K) -> Option<V> {
    if has_key(entries, key) {
        Some(entries[position(entries, key)].1)
    } else {
        None
    }
}

/// `entries` with the value stored under the key: in the place of the first
/// entry that has the key, or at the end where there is none.
pub open spec fn with_entry<K, V>(entries: Seq<(K, V)>, key: K, value: V) -> Seq<(K, V)> {
    if has_key(entries, key) {
        entries.update(position(entries, key), (key, value))
    } else {
        entries.push((key, value))
    }
}

/// `entries` without the first entry that has the key.
pub open spec fn without_key<K, V>(entries: Seq<(K, V)>, key: K) -> Seq<(K, V)> {
    if has_key(entries, key) {
        entries.remove(position(entries, key))
    } else {
        entries
    }
}

/// Whether no key occurs twice.
pub open spec fn distinct_keys<K, V>(entries: Seq<(K, V)>) -> bool {
    forall|i: int, j: int|
        0 <= i < j < entries.len() ==> (#[trigger] entries[i]).0 != (#[trigger] entries[j]).0
}

/// What `position_from` returns: the first index at or after `from` whose
/// entry has the key.
pub proof fn lemma_position_from<K, V>(entries: Seq<(K, V)>, key: K, from: int)
    requires
        0 <= from <= entries.len(),
    ensures
        from <= position_from(entries, key, from) <= entries.len(),
        position_from(entries, key, from) < entries.len() ==> entries[position_from(
            entries,
            key,
            from,
        )].0 == key,
        forall|j: int| from <= j < position_from(entries, key, from) ==> entries[j].0 != key,
    decreases entries.len() - from,
{
    if from < entries.len() && entries[from].0 != key {
        lemma_position_from(entries, key, from + 1);
    }
}

/// What `position` returns: the first index whose entry has the key.
pub proof fn lemma_position<K, V>(entries: Seq<(K, V)>, key: K)
    ensures
        0 <= position(entries, key) <= entries.len(),
        has_key(entries, key) ==> entries[position(entries, key)].0 == key,
        forall|j: int| 0 <= j < position(entries, key) ==> entries[j].0 != key,
{
    lemma_position_from(entries, key, 0);
}

/// An index whose entry has the key, with no such entry before it, is the
/// position of the key.
pub proof fn lemma_position_unique<K, V>(entries: Seq<(K, V)>, key: K, at: int)
    requires
        0 <= at <= entries.len(),
        at < entries.len() ==> entries[at].0 == key,
        forall|j: int| 0 <= j < at ==> entries[j].0 != key,
    ensures
        position(entries, key) == at,
{
    lemma_position(entries, key);
}

/// After a value is stored under a key, the key has that value and every
/// other key has what it had.
pub proof fn lemma_lookup_with_entry<K, V>(entries: Seq<(K, V)>, key: K, value: V, other: K)
    ensures
        lookup(with_entry(entries, key, value), other) == if other == key {
            Some(value)
        } else {
            lookup(entries, other)
        },
        has_key(with_entry(entries, key, value), other) == (other == key || has_key(
            entries,
            other,
        )),
{
    let stored = with_entry(entries, key, value);
    lemma_position(entries, key);
    lemma_position(entries, other);
    if other == key {
        lemma_position_unique(stored, key, position(entries, key));
    } else if has_key(entries, other) {
        lemma_position_unique(stored, other, position(entries, other));
    } else {
        lemma_position_unique(stored, other, stored.len() as int);
    }
}

/// After the first entry of a key is removed, every other key has what it
/// had; the key itself is gone where it occurred once.
pub proof fn lemma_lookup_without_key<K, V>(entries: Seq<(K, V)>, key: K, other: K)
    ensures
        other != key ==> lookup(without_key(entries, key), other) == lookup(entries, other),
        other != key ==> has_key(without_key(entries, key), other) == has_key(entries, other),
        distinct_keys(entries) ==> !has_key(without_key(entries, key), key),
        distinct_keys(entries) ==> distinct_keys(without_key(entries, key)),
{
    let rest = without_key(entries, key);
    lemma_position(entries, key);
    lemma_position(entries, other);
    let at = position(entries, key);
    if has_key(entries, key) {
        if other != key {
            let was = position(entries, other);
            if was < at {
                lemma_position_unique(rest, other, was);
            } else {
                lemma_position_unique(rest, other, was - 1);
            }
        }
        if distinct_keys(entries) {
            assert forall|j: int| 0 <= j < rest.len() implies rest[j].0 != key by {
                if j < at {
                    assert(rest[j] == entries[j]);
                } else {
                    assert(rest[j] == entries[j + 1]);
                    assert(entries[at].0 != entries[j + 1].0);
                }
            }
            lemma_position_unique(rest, key, rest.len() as int);
            assert forall|i: int, j: int| 0 <= i < j < rest.len() implies (#[trigger] rest[i]).0
                != (#[trigger] rest[j]).0 by {
                let i0 = if i < at { i } else { i + 1 };
                let j0 = if j < at { j } else { j + 1 };
                assert(rest[i] == entries[i0]);
                assert(rest[j] == entries[j0]);
            }
        }
    }
}

/// Every entry that is left after a key is removed was there before.
pub proof fn lemma_without_key_entries<K, V>(entries: Seq<(K, V)>, key: K)
    ensures
        forall|j: int|
            0 <= j < without_key(entries, key).len() ==> entries.contains(
                #[trigger] without_key(entries, key)[j],
            ),
{
    let rest = without_key(entries, key);
    lemma_position(entries, key);
    let at = position(entries, key);
    assert forall|j: int| 0 <= j < rest.len() implies entries.contains(#[trigger] rest[j]) by {
        if has_key(entries, key) {
            if j < at {
                assert(rest[j] == entries[j]);
            } else {
                assert(rest[j] == entries[j + 1]);
            }
        } else {
            assert(rest[j] == entries[j]);
        }
    }
}

/// Storing a value under a key that is not there, and removing the key
/// again, changes nothing.
pub proof fn lemma_without_with<K, V>(entries: Seq<(K, V)>, key: K, value: V)
    requires
        !has_key(entries, key),
    ensures
        without_key(with_entry(entries, key, value), key) == entries,
{
    let stored = with_entry(entries, key, value);
    lemma_position(entries, key);
    lemma_position_unique(stored, key, entries.len() as int);
    assert(stored.remove(entries.len() as int) =~= entries);
}

/// Storing a value keeps the keys distinct.
pub proof fn lemma_with_entry_distinct<K, V>(entries: Seq<(K, V)>, key: K, value: V)
    requires
        distinct_keys(entries),
    ensures
        distinct_keys(with_entry(entries, key, value)),
{
    let stored = with_entry(entries, key, value);
    lemma_position(entries, key);
    let at = position(entries, key);
    assert forall|i: int, j: int| 0 <= i < j < stored.len() implies (#[trigger] stored[i]).0 != (
    #[trigger] stored[j]).0 by {
        if has_key(entries, key) {
            if i == at {
                assert(entries[at].0 != entries[j].0);
            } else if j == at {
                assert(entries[i].0 != entries[at].0);
            } else {
                assert(entries[i].0 != entries[j].0);
            }
        } else if j < entries.len() {
            assert(entries[i].0 != entries[j].0);
        }
    }
}

} // verus!
