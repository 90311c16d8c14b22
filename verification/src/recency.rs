//! What a run of puts leaves in a cache: the keys that were put last, as
//! many of them as the cache has room for, each with the value it was
//! last given.

use vstd::prelude::*;
use vstd::seq_lib::seq_to_set_is_finite;
use crate::lru::{
    distinct_keys, has_key, lemma_has_key_push, lemma_lookup, lemma_without, lemma_without_concat,
    lemma_without_remove, lookup, put, put_all, without, Entry,
};

verus! {

/// The keys of a list, in its order.
pub open spec fn keys(entries: Seq<Entry>) -> Seq<Seq<char>> {
    entries.map_values(|entry: Entry| entry.0)
}

/// The distinct keys of a list.
pub open spec fn key_set(entries: Seq<Entry>) -> Set<Seq<char>> {
    keys(entries).to_set()
}

/// Where `key` was put last in a run of puts; -1 if it never was.
pub open spec fn last_put(puts: Seq<Entry>, key: Seq<char>) -> int
    decreases puts.len(),
{
    if puts.len() == 0 {
        -1
    } else if puts.last().0 == key {
        puts.len() - 1
    } else {
        last_put(puts.drop_last(), key)
    }
}

/// The keys of a run of puts in the order in which each was put last,
/// each with the value of that put.
pub open spec fn recent(puts: Seq<Entry>) -> Seq<Entry>
    decreases puts.len(),
{
    if puts.len() == 0 {
        Seq::empty()
    } else {
        without(recent(puts.drop_last()), puts.last().0).push(puts.last())
    }
}

/// The last `count` entries of a list, or all of a shorter list.
pub open spec fn tail(entries: Seq<Entry>, count: nat) -> Seq<Entry> {
    if entries.len() <= count {
        entries
    } else {
        entries.skip(entries.len() - count)
    }
}

/// A list ends with another.
pub open spec fn ends_with(entries: Seq<Entry>, ending: Seq<Entry>) -> bool {
    entries.len() >= ending.len() && entries.skip(entries.len() - ending.len()) == ending
}

/// The distinct keys of a list are finitely many, they are the keys that
/// the list has, and a list of distinct keys has as many as it has entries.
pub proof fn lemma_key_set(entries: Seq<Entry>)
    ensures
        key_set(entries).finite(),
        forall|key: Seq<char>| #[trigger] key_set(entries).contains(key) <==> has_key(entries, key),
        distinct_keys(entries) ==> key_set(entries).len() == entries.len(),
{
    let ks = keys(entries);
    seq_to_set_is_finite(ks);
    assert forall|key: Seq<char>| #[trigger] key_set(entries).contains(key) <==> has_key(
        entries,
        key,
    ) by {
        if has_key(entries, key) {
            let i = choose|i: int| 0 <= i < entries.len() && (#[trigger] entries[i]).0 == key;
            assert(ks[i] == key);
        }
        if ks.contains(key) {
            let i = choose|i: int| 0 <= i < ks.len() && ks[i] == key;
            assert(entries[i].0 == key);
        }
    }
    if distinct_keys(entries) {
        assert(ks.no_duplicates()) by {
            assert forall|i: int, j: int| 0 <= i < ks.len() && 0 <= j < ks.len() && i != j implies ks[i]
                != ks[j] by {}
        }
        ks.unique_seq_to_set();
    }
}

/// The last put of a key that was put is a put of that key, no later put
/// is, and its value is the one that `lookup` finds in the run.
pub proof fn lemma_last_put(puts: Seq<Entry>, key: Seq<char>)
    ensures
        has_key(puts, key) ==> {
            &&& 0 <= last_put(puts, key) < puts.len()
            &&& puts[last_put(puts, key)].0 == key
            &&& !has_key(puts.skip(last_put(puts, key) + 1), key)
            &&& lookup(puts, key) == Some(puts[last_put(puts, key)].1)
        },
        !has_key(puts, key) ==> last_put(puts, key) == -1,
    decreases puts.len(),
{
    if puts.len() > 0 {
        let front = puts.drop_last();
        let last = puts.last();
        assert(puts == front.push(last));
        lemma_has_key_push(front, last, key);
        lemma_last_put(front, key);
        if last.0 != key && has_key(front, key) {
            let j = last_put(front, key);
            assert(puts.skip(j + 1) =~= front.skip(j + 1).push(last));
            lemma_has_key_push(front.skip(j + 1), last, key);
        }
    }
}

/// The keys of `recent` are the keys that were put, each once, with the
/// value of its last put.
pub proof fn lemma_recent(puts: Seq<Entry>)
    ensures
        distinct_keys(recent(puts)),
        forall|key: Seq<char>| #[trigger] has_key(recent(puts), key) <==> has_key(puts, key),
        forall|key: Seq<char>| #[trigger] lookup(recent(puts), key) == lookup(puts, key),
        recent(puts).len() == key_set(puts).len(),
    decreases puts.len(),
{
    if puts.len() > 0 {
        let front = puts.drop_last();
        let last = puts.last();
        let before = recent(front);
        let kept = without(before, last.0);
        let after = recent(puts);
        assert(puts == front.push(last));
        lemma_recent(front);
        lemma_without(before, last.0);
        assert forall|key: Seq<char>| #[trigger] has_key(after, key) <==> has_key(puts, key) by {
            lemma_has_key_push(kept, last, key);
            lemma_has_key_push(front, last, key);
        }
        assert forall|key: Seq<char>| #[trigger] lookup(after, key) == lookup(puts, key) by {
            assert(after.drop_last() =~= kept);
            if key != last.0 {
                assert(lookup(kept, key) == lookup(before, key));
            }
        }
        assert(distinct_keys(after)) by {
            assert forall|i: int, j: int| 0 <= i < j < after.len() implies after[i].0
                != after[j].0 by {}
        }
    } else {
        assert forall|key: Seq<char>| !has_key(puts, key) by {}
    }
    lemma_key_set(recent(puts));
    lemma_key_set(puts);
    assert(key_set(recent(puts)) =~= key_set(puts));
}

/// In a list of distinct keys, a key that is taken out leaves a list that
/// is shorter by one.
pub proof fn lemma_without_len(entries: Seq<Entry>, key: Seq<char>)
    requires
        distinct_keys(entries),
        has_key(entries, key),
    ensures
        without(entries, key).len() == entries.len() - 1,
{
    let i = choose|i: int| 0 <= i < entries.len() && (#[trigger] entries[i]).0 == key;
    lemma_without_remove(entries, i);
}

/// A cache holds the tail of `recent`: as many of the keys that were put
/// last as it has room for.
pub proof fn lemma_put_all_recent(puts: Seq<Entry>, capacity: nat)
    requires
        capacity > 0,
    ensures
        put_all(puts, capacity) == tail(recent(puts), capacity),
    decreases puts.len(),
{
    if puts.len() > 0 {
        let front = puts.drop_last();
        let key = puts.last().0;
        lemma_put_all_recent(front, capacity);
        lemma_recent(front);
        let before = recent(front);
        let cut: int = if before.len() <= capacity {
            0
        } else {
            before.len() - capacity
        };
        let head = before.take(cut);
        let held = before.skip(cut);
        assert(before =~= head + held);
        assert(distinct_keys(head)) by {
            assert forall|i: int, j: int| 0 <= i < j < head.len() implies head[i].0
                != head[j].0 by {}
        }
        assert(distinct_keys(held)) by {
            assert forall|i: int, j: int| 0 <= i < j < held.len() implies held[i].0
                != held[j].0 by {}
        }
        assert(!(has_key(head, key) && has_key(held, key)));
        assert(has_key(before, key) <==> has_key(head, key) || has_key(held, key));
        lemma_without_concat(head, held, key);
        lemma_without(head, key);
        lemma_without(held, key);
        if has_key(held, key) {
            lemma_without_len(held, key);
        } else if has_key(head, key) {
            lemma_without_len(head, key);
        }
    }
}

/// What was put after the last put of a key stands behind that key in
/// `recent`, and the key stands just before it.
pub proof fn lemma_recent_ending(puts: Seq<Entry>, at: int)
    requires
        0 <= at < puts.len(),
        !has_key(puts.skip(at + 1), puts[at].0),
    ensures
        ends_with(recent(puts), seq![puts[at]] + recent(puts.skip(at + 1))),
    decreases puts.len(),
{
    let front = puts.drop_last();
    let last = puts.last();
    let after = recent(puts);
    if at == puts.len() - 1 {
        assert(after.skip(after.len() - 1) =~= seq![puts[at]] + recent(puts.skip(at + 1)));
    } else {
        let later = puts.skip(at + 1);
        assert(later.drop_last() =~= front.skip(at + 1));
        assert(later.last() == last);
        lemma_has_key_push(front.skip(at + 1), last, puts[at].0);
        lemma_recent_ending(front, at);
        let before = recent(front);
        let behind = recent(front.skip(at + 1));
        let ending = seq![puts[at]] + behind;
        let cut: int = before.len() - ending.len();
        assert(before =~= before.take(cut) + ending);
        lemma_without_concat(before.take(cut), ending, last.0);
        lemma_without_concat(seq![puts[at]], behind, last.0);
        assert(without(seq![puts[at]], last.0) == seq![puts[at]]) by {
            lemma_without(seq![puts[at]], last.0);
        }
        let goal = seq![puts[at]] + recent(later);
        assert(after.skip(after.len() - goal.len()) =~= goal);
    }
}

/// A key that was put is still in the cache if and only if fewer distinct
/// keys than the cache has room for were put after its last put.
pub proof fn lemma_survivor(puts: Seq<Entry>, capacity: nat, key: Seq<char>)
    requires
        capacity > 0,
        has_key(puts, key),
    ensures
        has_key(put_all(puts, capacity), key) <==> key_set(puts.skip(last_put(puts, key) + 1)).len()
            < capacity,
{
    let at = last_put(puts, key);
    lemma_last_put(puts, key);
    lemma_recent_ending(puts, at);
    lemma_put_all_recent(puts, capacity);
    lemma_recent(puts);
    lemma_recent(puts.skip(at + 1));
    let all = recent(puts);
    let behind = recent(puts.skip(at + 1));
    let ending = seq![puts[at]] + behind;
    let held = tail(all, capacity);
    let place: int = all.len() - ending.len();
    assert(all[place] == all.skip(place)[0]);
    let cut: int = if all.len() <= capacity {
        0
    } else {
        all.len() - capacity
    };
    if behind.len() < capacity {
        assert(held[place - cut].0 == key);
    }
}

/// While the puts name no more distinct keys than the cache has room for,
/// the cache holds as many entries as there are distinct keys, and under
/// every key that was put the value that it was last given.
pub proof fn lemma_puts_within_capacity(puts: Seq<Entry>, capacity: nat)
    requires
        capacity > 0,
        key_set(puts).len() <= capacity,
    ensures
        put_all(puts, capacity).len() == key_set(puts).len(),
        forall|key: Seq<char>|
            has_key(puts, key) ==> #[trigger] lookup(put_all(puts, capacity), key) == Some(
                puts[last_put(puts, key)].1,
            ),
{
    lemma_put_all_recent(puts, capacity);
    lemma_recent(puts);
    assert forall|key: Seq<char>| has_key(puts, key) implies #[trigger] lookup(
        put_all(puts, capacity),
        key,
    ) == Some(puts[last_put(puts, key)].1) by {
        lemma_last_put(puts, key);
    }
}

/// Once the puts name more distinct keys than the cache has room for, the
/// cache is full, and it holds exactly the keys after whose last put fewer
/// distinct keys were put than the cache has room for: the keys that were
/// put most recently. Each has the value that it was last given.
pub proof fn lemma_puts_beyond_capacity(puts: Seq<Entry>, capacity: nat)
    requires
        capacity > 0,
        key_set(puts).len() > capacity,
    ensures
        put_all(puts, capacity).len() == capacity,
        forall|key: Seq<char>| #[trigger]
            has_key(put_all(puts, capacity), key) <==> has_key(puts, key) && key_set(
                puts.skip(last_put(puts, key) + 1),
            ).len() < capacity,
        forall|key: Seq<char>|
            has_key(put_all(puts, capacity), key) ==> #[trigger] lookup(
                put_all(puts, capacity),
                key,
            ) == Some(puts[last_put(puts, key)].1),
{
    lemma_put_all_recent(puts, capacity);
    lemma_recent(puts);
    let all = recent(puts);
    let held = put_all(puts, capacity);
    assert forall|key: Seq<char>| has_key(held, key) implies has_key(puts, key) && lookup(held, key)
        == Some(puts[last_put(puts, key)].1) by {
        assert(distinct_keys(held)) by {
            assert forall|a: int, b: int| 0 <= a < b < held.len() implies held[a].0
                != held[b].0 by {}
        }
        lemma_lookup(held, key);
        lemma_lookup(all, key);
        lemma_last_put(puts, key);
    }
    assert forall|key: Seq<char>| #[trigger]
        has_key(held, key) <==> has_key(puts, key) && key_set(
            puts.skip(last_put(puts, key) + 1),
        ).len() < capacity by {
        if has_key(puts, key) {
            lemma_survivor(puts, capacity, key);
        }
    }
}

} // verus!
