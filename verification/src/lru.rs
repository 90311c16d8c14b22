//! The recency list: the mathematical model of what the cache holds.
//!
//! An entry is a key with its value. A list of entries runs from the least
//! recently used entry, at the head, to the most recently used one, at the
//! tail.

use vstd::prelude::*;

verus! {

/// A key and its value.
pub type Entry = (Seq<char>, Seq<char>);

/// No two entries have the same key.
pub open spec fn distinct_keys(entries: Seq<Entry>) -> bool {
    forall|i: int, j: int| 0 <= i < j < entries.len() ==> entries[i].0 != entries[j].0
}

/// Some entry has this key.
pub open spec fn has_key(entries: Seq<Entry>, key: Seq<char>) -> bool {
    exists|i: int| 0 <= i < entries.len() && (#[trigger] entries[i]).0 == key
}

/// The value under `key`: that of the last entry with this key.
pub open spec fn lookup(entries: Seq<Entry>, key: Seq<char>) -> Option<Seq<char>>
    decreases entries.len(),
{
    if entries.len() == 0 {
        None
    } else if entries.last().0 == key {
        Some(entries.last().1)
    } else {
        lookup(entries.drop_last(), key)
    }
}

/// The entries whose key is not `key`, in their order.
pub open spec fn without(entries: Seq<Entry>, key: Seq<char>) -> Seq<Entry>
    decreases entries.len(),
{
    if entries.len() == 0 {
        entries
    } else if entries.last().0 == key {
        without(entries.drop_last(), key)
    } else {
        without(entries.drop_last(), key).push(entries.last())
    }
}

/// The list after `key` is given `value` in a cache of `capacity` entries:
/// a known key moves to the tail with its new value; a new key is appended,
/// after the head has been evicted if the list is full.
pub open spec fn put(entries: Seq<Entry>, capacity: nat, key: Seq<char>, value: Seq<char>) -> Seq<
    Entry,
> {
    if has_key(entries, key) {
        without(entries, key).push((key, value))
    } else if entries.len() >= capacity {
        entries.drop_first().push((key, value))
    } else {
        entries.push((key, value))
    }
}

/// The list after `key` has been read: a known key moves to the tail with
/// its value, and nothing changes for an unknown key.
pub open spec fn touch(entries: Seq<Entry>, key: Seq<char>) -> Seq<Entry> {
    match lookup(entries, key) {
        Some(value) => without(entries, key).push((key, value)),
        None => entries,
    }
}

/// The list that a cache of `capacity` entries holds after these puts, made
/// in this order on an empty cache.
pub open spec fn put_all(puts: Seq<Entry>, capacity: nat) -> Seq<Entry>
    decreases puts.len(),
{
    if puts.len() == 0 {
        Seq::empty()
    } else {
        put(put_all(puts.drop_last(), capacity), capacity, puts.last().0, puts.last().1)
    }
}

/// A list that a cache of `capacity` entries may hold.
pub open spec fn fits(entries: Seq<Entry>, capacity: nat) -> bool {
    &&& capacity > 0
    &&& entries.len() <= capacity
    &&& distinct_keys(entries)
}

/// In a list of distinct keys, the key of the last entry is not among the
/// keys before it.
pub proof fn lemma_new_key(entries: Seq<Entry>)
    requires
        distinct_keys(entries),
        entries.len() > 0,
    ensures
        !has_key(entries.drop_last(), entries.last().0),
        distinct_keys(entries.drop_last()),
{
    let front = entries.drop_last();
    if has_key(front, entries.last().0) {
        let i = choose|i: int| 0 <= i < front.len() && (#[trigger] front[i]).0 == entries.last().0;
        assert(entries[i].0 != entries[entries.len() - 1].0);
    }
}

/// Appending an entry adds its key to the keys of the list.
pub proof fn lemma_has_key_push(entries: Seq<Entry>, entry: Entry, key: Seq<char>)
    ensures
        has_key(entries.push(entry), key) <==> has_key(entries, key) || entry.0 == key,
{
    let longer = entries.push(entry);
    if has_key(entries, key) {
        let i = choose|i: int| 0 <= i < entries.len() && (#[trigger] entries[i]).0 == key;
        assert(longer[i].0 == key);
    }
    if entry.0 == key {
        assert(longer[entries.len() as int].0 == key);
    }
    if has_key(longer, key) {
        let i = choose|i: int| 0 <= i < longer.len() && (#[trigger] longer[i]).0 == key;
        assert(i < entries.len() ==> entries[i].0 == key);
    }
}

/// `lookup` finds a value exactly for the keys of the list, and in a list of
/// distinct keys it finds the value of the one entry with that key.
pub proof fn lemma_lookup(entries: Seq<Entry>, key: Seq<char>)
    ensures
        lookup(entries, key) is Some <==> has_key(entries, key),
        distinct_keys(entries) ==> forall|i: int|
            0 <= i < entries.len() && (#[trigger] entries[i]).0 == key ==> lookup(entries, key)
                == Some(entries[i].1),
    decreases entries.len(),
{
    if entries.len() > 0 {
        let front = entries.drop_last();
        assert(entries == front.push(entries.last()));
        lemma_has_key_push(front, entries.last(), key);
        lemma_lookup(front, key);
        if distinct_keys(entries) {
            assert forall|i: int|
                0 <= i < entries.len() && (#[trigger] entries[i]).0 == key implies lookup(
                entries,
                key,
            ) == Some(entries[i].1) by {}
        }
    }
}

/// What `without` keeps: every key but the one taken out, each with the
/// value it had.
pub proof fn lemma_without(entries: Seq<Entry>, key: Seq<char>)
    ensures
        without(entries, key).len() <= entries.len(),
        has_key(entries, key) ==> without(entries, key).len() < entries.len(),
        !has_key(entries, key) ==> without(entries, key) == entries,
        !has_key(without(entries, key), key),
        forall|k: Seq<char>|
            k != key ==> (#[trigger] has_key(without(entries, key), k) <==> has_key(entries, k)),
        forall|k: Seq<char>|
            k != key ==> #[trigger] lookup(without(entries, key), k) == lookup(entries, k),
        distinct_keys(entries) ==> distinct_keys(without(entries, key)),
    decreases entries.len(),
{
    if entries.len() > 0 {
        let front = entries.drop_last();
        let last = entries.last();
        let kept = without(front, key);
        assert(entries == front.push(last));
        lemma_without(front, key);
        lemma_has_key_push(front, last, key);
        lemma_has_key_push(kept, last, key);
        assert forall|k: Seq<char>| k != key implies (#[trigger] has_key(without(entries, key), k)
            <==> has_key(entries, k)) by {
            lemma_has_key_push(front, last, k);
            lemma_has_key_push(kept, last, k);
        }
        assert forall|k: Seq<char>| k != key implies #[trigger] lookup(without(entries, key), k)
            == lookup(entries, k) by {
            assert(lookup(kept, k) == lookup(front, k));
            if last.0 != key {
                assert(kept.push(last).drop_last() == kept);
            }
        }
        if distinct_keys(entries) {
            if last.0 != key {
                let longer = kept.push(last);
                lemma_new_key(entries);
                assert(has_key(kept, last.0) <==> has_key(front, last.0));
                assert forall|i: int, j: int| 0 <= i < j < longer.len() implies longer[i].0
                    != longer[j].0 by {}
            }
        }
    }
}

/// In a list of distinct keys, taking a key out removes the one entry that
/// has it.
pub proof fn lemma_without_remove(entries: Seq<Entry>, i: int)
    requires
        distinct_keys(entries),
        0 <= i < entries.len(),
    ensures
        without(entries, entries[i].0) == entries.remove(i),
    decreases entries.len(),
{
    let key = entries[i].0;
    let front = entries.drop_last();
    if i == entries.len() - 1 {
        lemma_new_key(entries);
        lemma_without(front, key);
    } else {
        lemma_without_remove(front, i);
    }
}

/// A list that fits a cache still fits it after a `put`.
pub proof fn lemma_put_fits(entries: Seq<Entry>, capacity: nat, key: Seq<char>, value: Seq<char>)
    requires
        fits(entries, capacity),
    ensures
        fits(put(entries, capacity, key, value), capacity),
        has_key(put(entries, capacity, key, value), key),
        put(entries, capacity, key, value).last() == (key, value),
{
    let after = put(entries, capacity, key, value);
    lemma_without(entries, key);
    if has_key(entries, key) {
        let kept = without(entries, key);
        lemma_has_key_push(kept, (key, value), key);
        assert forall|i: int, j: int| 0 <= i < j < after.len() implies after[i].0 != after[j].0 by {}
    } else {
        let kept = if entries.len() >= capacity {
            entries.drop_first()
        } else {
            entries
        };
        lemma_has_key_push(kept, (key, value), key);
        assert forall|i: int, j: int| 0 <= i < j < after.len() implies after[i].0 != after[j].0 by {}
    }
}

/// Taking a key out of two lists in a row takes it out of each.
pub proof fn lemma_without_concat(head: Seq<Entry>, tail: Seq<Entry>, key: Seq<char>)
    ensures
        without(head + tail, key) == without(head, key) + without(tail, key),
    decreases tail.len(),
{
    if tail.len() > 0 {
        lemma_without_concat(head, tail.drop_last(), key);
        assert((head + tail).drop_last() =~= head + tail.drop_last());
    }
}

/// The entries that `without` keeps are the entries with another key.
pub proof fn lemma_without_contains(entries: Seq<Entry>, key: Seq<char>)
    ensures
        forall|entry: Entry| #[trigger]
            without(entries, key).contains(entry) <==> entries.contains(entry) && entry.0 != key,
    decreases entries.len(),
{
    if entries.len() > 0 {
        let front = entries.drop_last();
        let last = entries.last();
        let kept = without(front, key);
        lemma_without_contains(front, key);
        assert forall|entry: Entry| #[trigger]
            without(entries, key).contains(entry) <==> entries.contains(entry) && entry.0
                != key by {
            if entries.contains(entry) {
                let i = choose|i: int| 0 <= i < entries.len() && entries[i] == entry;
                if i < front.len() {
                    assert(front[i] == entry);
                }
            }
            if front.contains(entry) {
                let i = choose|i: int| 0 <= i < front.len() && front[i] == entry;
                assert(entries[i] == entry);
            }
            if last.0 != key {
                let longer = kept.push(last);
                assert(longer[kept.len() as int] == last);
                if kept.contains(entry) {
                    let i = choose|i: int| 0 <= i < kept.len() && kept[i] == entry;
                    assert(longer[i] == entry);
                }
                if longer.contains(entry) {
                    let i = choose|i: int| 0 <= i < longer.len() && longer[i] == entry;
                    assert(i < kept.len() ==> kept[i] == entry);
                }
            }
        }
    }
}

/// A list that fits a cache is what putting its entries one by one leaves.
pub proof fn lemma_put_all_same(entries: Seq<Entry>, capacity: nat)
    requires
        fits(entries, capacity),
    ensures
        put_all(entries, capacity) == entries,
    decreases entries.len(),
{
    if entries.len() > 0 {
        lemma_put_all_same(entries.drop_last(), capacity);
        lemma_new_key(entries);
    }
}

/// What a `put` leaves under each key: the new value under the key that
/// was put, and under any other key that is still there the value it had.
pub proof fn lemma_put_lookup(entries: Seq<Entry>, capacity: nat, key: Seq<char>, value: Seq<char>)
    requires
        fits(entries, capacity),
    ensures
        lookup(put(entries, capacity, key, value), key) == Some(value),
        forall|other: Seq<char>|
            other != key && has_key(put(entries, capacity, key, value), other) ==> #[trigger] lookup(
                put(entries, capacity, key, value),
                other,
            ) == lookup(entries, other),
        forall|other: Seq<char>|
            other != key && (has_key(entries, key) || entries.len() < capacity) ==> #[trigger] lookup(
                put(entries, capacity, key, value),
                other,
            ) == lookup(entries, other),
{
    let after = put(entries, capacity, key, value);
    lemma_without(entries, key);
    let kept = after.drop_last();
    assert forall|other: Seq<char>| other != key implies lookup(after, other) == lookup(
        kept,
        other,
    ) by {}
    if has_key(entries, key) {
        assert(kept =~= without(entries, key));
    } else if entries.len() >= capacity {
        assert(kept =~= entries.drop_first());
        assert forall|other: Seq<char>| other != key && has_key(after, other) implies lookup(
            after,
            other,
        ) == lookup(entries, other) by {
            lemma_has_key_push(kept, (key, value), other);
            lemma_lookup_drop_first(entries, other);
        }
    } else {
        assert(kept =~= entries);
    }
}

/// Dropping the head of a list of distinct keys leaves every other key
/// its value.
pub proof fn lemma_lookup_drop_first(entries: Seq<Entry>, key: Seq<char>)
    requires
        distinct_keys(entries),
        entries.len() > 0,
    ensures
        has_key(entries.drop_first(), key) <==> has_key(entries, key) && entries[0].0 != key,
        has_key(entries.drop_first(), key) ==> lookup(entries.drop_first(), key) == lookup(
            entries,
            key,
        ),
{
    let rest = entries.drop_first();
    assert forall|i: int, j: int| 0 <= i < j < rest.len() implies rest[i].0 != rest[j].0 by {}
    if has_key(rest, key) {
        let i = choose|i: int| 0 <= i < rest.len() && (#[trigger] rest[i]).0 == key;
        assert(entries[i + 1].0 == key);
        lemma_lookup(rest, key);
        lemma_lookup(entries, key);
    }
    if has_key(entries, key) && entries[0].0 != key {
        let i = choose|i: int| 0 <= i < entries.len() && (#[trigger] entries[i]).0 == key;
        assert(rest[i - 1].0 == key);
    }
}

/// What a read leaves: the list fits as before and holds every key with
/// the value it had, and the key that was read, if the list holds it,
/// stands at the tail.
pub proof fn lemma_touch(entries: Seq<Entry>, capacity: nat, key: Seq<char>)
    requires
        fits(entries, capacity),
    ensures
        fits(touch(entries, key), capacity),
        touch(entries, key).len() == entries.len(),
        forall|other: Seq<char>| #[trigger]
            lookup(touch(entries, key), other) == lookup(entries, other),
        forall|entry: Entry| #[trigger] touch(entries, key).contains(entry) <==> entries.contains(entry),
        lookup(entries, key) matches Some(value) ==> touch(entries, key).last() == (key, value),
{
    lemma_lookup(entries, key);
    lemma_without(entries, key);
    lemma_without_contains(entries, key);
    match lookup(entries, key) {
        Some(value) => {
            let i = choose|i: int| 0 <= i < entries.len() && (#[trigger] entries[i]).0 == key;
            lemma_without_remove(entries, i);
            lemma_put_fits(entries, capacity, key, value);
            let kept = without(entries, key);
            let after = touch(entries, key);
            assert(after.drop_last() =~= kept);
            assert forall|other: Seq<char>| #[trigger]
                lookup(after, other) == lookup(entries, other) by {
                if other != key {
                    assert(lookup(after, other) == lookup(kept, other));
                }
            }
            assert forall|entry: Entry| #[trigger] after.contains(entry) <==> entries.contains(entry) by {
                assert(kept.contains(entry) <==> entries.contains(entry) && entry.0 != key);
            }
        },
        None => {},
    }
}

/// Whatever is put, the list fits the cache.
pub proof fn lemma_put_all_fits(puts: Seq<Entry>, capacity: nat)
    requires
        capacity > 0,
    ensures
        fits(put_all(puts, capacity), capacity),
    decreases puts.len(),
{
    if puts.len() > 0 {
        lemma_put_all_fits(puts.drop_last(), capacity);
        lemma_put_fits(put_all(puts.drop_last(), capacity), capacity, puts.last().0, puts.last().1);
    }
}

} // verus!
