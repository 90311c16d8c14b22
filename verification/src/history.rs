//! Runs of calls on a cache, and what holds after them.
//!
//! A run is a sequence of calls. What a cache is after a run is told by the
//! functions of `CacheView`, the same that the contracts of the engine
//! speak of.

use vstd::prelude::*;
use crate::image::{all_storable, image_of, lemma_image_decodes, storable};
use crate::lru::{
    fits, has_key, lemma_has_key_push, lemma_lookup, lemma_put_all_same, lemma_put_fits,
    lemma_put_lookup, lemma_touch, lemma_without, lemma_without_contains, lookup, put, put_all,
    without, Entry,
};
use crate::persistent::CacheView;

verus! {

/// A call on a cache.
pub enum Call {
    /// `put(key, value)`
    Put { key: Seq<char>, value: Seq<char> },
    /// `get(key)`
    Get { key: Seq<char> },
    /// `remove(key)`
    Remove { key: Seq<char> },
    /// `clear()`
    Clear,
}

/// The cache after a call.
pub open spec fn after(view: CacheView, call: Call) -> CacheView {
    match call {
        Call::Put { key, value } => view.put(key, value),
        Call::Get { key } => view.get(key),
        Call::Remove { key } => view.remove(key),
        Call::Clear => view.clear(),
    }
}

/// The cache after a run of calls.
pub open spec fn after_all(view: CacheView, calls: Seq<Call>) -> CacheView
    decreases calls.len(),
{
    if calls.len() == 0 {
        view
    } else {
        after(after_all(view, calls.drop_last()), calls.last())
    }
}

/// The value that `key` has by a run of calls on a cache that began with
/// `entries`: the value of the last put of the key, unless the key was
/// removed or the cache was cleared since; for a key that no call names,
/// the value that it began with.
pub open spec fn assigned(entries: Seq<Entry>, calls: Seq<Call>, key: Seq<char>) -> Option<
    Seq<char>,
>
    decreases calls.len(),
{
    if calls.len() == 0 {
        lookup(entries, key)
    } else {
        match calls.last() {
            Call::Put { key: put_key, value } => if put_key == key {
                Some(value)
            } else {
                assigned(entries, calls.drop_last(), key)
            },
            Call::Get { key: _ } => assigned(entries, calls.drop_last(), key),
            Call::Remove { key: removed } => if removed == key {
                None
            } else {
                assigned(entries, calls.drop_last(), key)
            },
            Call::Clear => None,
        }
    }
}

/// The run is made of puts and gets alone.
pub open spec fn puts_and_gets(calls: Seq<Call>) -> bool {
    forall|i: int| 0 <= i < calls.len() ==> #[trigger] calls[i] is Put || calls[i] is Get
}

/// The uses that a run of calls makes of keys, as puts: a put is a use of
/// its key, and so is a get of a key that the cache holds, which counts
/// as a put of the value that the key has. A get of any other key is no
/// use.
pub open spec fn uses(view: CacheView, calls: Seq<Call>) -> Seq<Entry>
    decreases calls.len(),
{
    if calls.len() == 0 {
        Seq::empty()
    } else {
        let earlier = uses(view, calls.drop_last());
        match calls.last() {
            Call::Put { key, value } => earlier.push((key, value)),
            Call::Get { key } => match lookup(after_all(view, calls.drop_last()).entries, key) {
                Some(value) => earlier.push((key, value)),
                None => earlier,
            },
            _ => earlier,
        }
    }
}

/// Every put of the run puts a storable entry.
pub open spec fn storable_puts(calls: Seq<Call>) -> bool {
    forall|i: int|
        0 <= i < calls.len() ==> (#[trigger] calls[i] matches Call::Put { key, value } ==> storable(
            (key, value),
        ))
}

/// What a call leaves is a cache again.
pub proof fn lemma_after_valid(view: CacheView, call: Call)
    requires
        view.valid(),
    ensures
        after(view, call).valid(),
        after(view, call).capacity == view.capacity,
        after(view, call).file_path == view.file_path,
{
    match call {
        Call::Put { key, value } => {
            lemma_put_fits(view.entries, view.capacity, key, value);
        },
        Call::Get { key } => {
            lemma_touch(view.entries, view.capacity, key);
        },
        Call::Remove { key } => {
            lemma_without(view.entries, key);
        },
        Call::Clear => {},
    }
}

/// What a run leaves is a cache again.
pub proof fn lemma_after_all_valid(view: CacheView, calls: Seq<Call>)
    requires
        view.valid(),
    ensures
        after_all(view, calls).valid(),
        after_all(view, calls).capacity == view.capacity,
        after_all(view, calls).file_path == view.file_path,
    decreases calls.len(),
{
    if calls.len() > 0 {
        lemma_after_all_valid(view, calls.drop_last());
        lemma_after_valid(after_all(view, calls.drop_last()), calls.last());
    }
}

/// Whatever the cache holds under a key after a run of calls is the value
/// that the key was last given: a `get` never returns a stale value.
pub proof fn lemma_lookup_is_assigned(view: CacheView, calls: Seq<Call>, key: Seq<char>)
    requires
        view.valid(),
    ensures
        lookup(after_all(view, calls).entries, key) matches Some(value) ==> assigned(
            view.entries,
            calls,
            key,
        ) == Some(value),
    decreases calls.len(),
{
    if calls.len() > 0 {
        let before = after_all(view, calls.drop_last());
        lemma_lookup_is_assigned(view, calls.drop_last(), key);
        lemma_after_all_valid(view, calls.drop_last());
        match calls.last() {
            Call::Put { key: put_key, value } => {
                lemma_put_lookup(before.entries, before.capacity, put_key, value);
                lemma_lookup(put(before.entries, before.capacity, put_key, value), key);
            },
            Call::Get { key: read } => {
                lemma_touch(before.entries, before.capacity, read);
            },
            Call::Remove { key: removed } => {
                lemma_without(before.entries, removed);
                lemma_lookup(without(before.entries, removed), key);
                lemma_lookup(before.entries, removed);
            },
            Call::Clear => {},
        }
    }
}

/// After a run of puts and gets on a fresh cache, the cache holds what
/// the uses of the run leave when they are made as puts: for what a cache
/// holds, a get that finds its key is a put of the value it finds. What
/// holds of runs of puts holds of such runs, with uses in place of puts.
pub proof fn lemma_gets_are_puts(capacity: nat, file_path: Seq<char>, calls: Seq<Call>)
    requires
        capacity > 0,
        puts_and_gets(calls),
    ensures
        after_all(CacheView::fresh(capacity, file_path), calls).entries == put_all(
            uses(CacheView::fresh(capacity, file_path), calls),
            capacity,
        ),
    decreases calls.len(),
{
    let fresh = CacheView::fresh(capacity, file_path);
    if calls.len() > 0 {
        let front = calls.drop_last();
        assert(puts_and_gets(front)) by {
            assert forall|i: int| 0 <= i < front.len() implies #[trigger] front[i] is Put
                || front[i] is Get by {}
        }
        lemma_gets_are_puts(capacity, file_path, front);
        lemma_after_all_valid(fresh, front);
        let before = after_all(fresh, front);
        let earlier = uses(fresh, front);
        match calls.last() {
            Call::Put { key, value } => {
                assert(earlier.push((key, value)).drop_last() =~= earlier);
            },
            Call::Get { key } => {
                lemma_lookup(before.entries, key);
                match lookup(before.entries, key) {
                    Some(value) => {
                        assert(earlier.push((key, value)).drop_last() =~= earlier);
                    },
                    None => {},
                }
            },
            _ => {},
        }
    }
}

/// Taking out a key that was just put, as a new key and with room to
/// spare, leaves the cache as it was, with its mirror up to date.
pub proof fn lemma_remove_undoes_put(view: CacheView, key: Seq<char>, value: Seq<char>)
    requires
        view.valid(),
        !has_key(view.entries, key),
        view.entries.len() < view.capacity,
    ensures
        view.put(key, value).remove(key) == view.saved(),
{
    let longer = view.entries.push((key, value));
    lemma_has_key_push(view.entries, (key, value), key);
    lemma_without(view.entries, key);
    assert(longer.drop_last() =~= view.entries);
}

/// A cache that was cleared is empty, and so is the cache that is made
/// from its mirror.
pub proof fn lemma_clear_reloads(view: CacheView)
    ensures
        view.clear().entries.len() == 0,
        view.clear().mirror == Some(Seq::<char>::empty()),
        CacheView::fresh(view.capacity, view.file_path).loaded(Seq::empty()) == Some(view.clear()),
{
    let empty = Seq::<Entry>::empty();
    lemma_image_decodes(empty);
}

/// A cache that is made from what the backing file of a settled cache
/// holds is that cache: the run of no calls.
pub proof fn lemma_settled_reloads(view: CacheView)
    requires
        view.settled(),
    ensures
        view.reloaded() == Some(view),
{
    lemma_reload(view, Seq::empty());
    if view.mirror is None {
        assert(view.entries =~= Seq::empty());
    }
}

/// What a put leaves was there before or is what was put.
pub proof fn lemma_put_contains(entries: Seq<Entry>, capacity: nat, key: Seq<char>, value: Seq<char>)
    requires
        capacity > 0,
    ensures
        forall|entry: Entry| #[trigger]
            put(entries, capacity, key, value).contains(entry) ==> entries.contains(entry) || entry
                == (key, value),
{
    let after = put(entries, capacity, key, value);
    lemma_without_contains(entries, key);
    assert forall|entry: Entry| #[trigger] after.contains(entry) implies entries.contains(entry)
        || entry == (key, value) by {
        let i = choose|i: int| 0 <= i < after.len() && after[i] == entry;
        if i < after.len() - 1 {
            if has_key(entries, key) {
                assert(without(entries, key).contains(entry));
            } else if entries.len() >= capacity {
                assert(entries[i + 1] == entry);
            } else {
                assert(entries[i] == entry);
            }
        }
    }
}

/// The entries that stand behind the mirror of a cache after a run: the
/// entries of the cache when it was last rendered.
pub open spec fn rendered_entries(view: CacheView, calls: Seq<Call>) -> Seq<Entry>
    decreases calls.len(),
{
    if calls.len() == 0 {
        view.entries
    } else {
        let before = after_all(view, calls.drop_last());
        match calls.last() {
            Call::Get { key: _ } => rendered_entries(view, calls.drop_last()),
            Call::Remove { key } => if has_key(before.entries, key) {
                after(before, calls.last()).entries
            } else {
                rendered_entries(view, calls.drop_last())
            },
            _ => after(before, calls.last()).entries,
        }
    }
}

/// After a run of calls on a settled cache, the mirror is the image of
/// the entries as they were last rendered, and these are the entries of
/// the cache but for their order.
pub proof fn lemma_mirror_after(view: CacheView, calls: Seq<Call>)
    requires
        view.settled(),
        storable_puts(calls),
    ensures
        ({
            let end = after_all(view, calls);
            let rendered = rendered_entries(view, calls);
            &&& end.valid()
            &&& all_storable(end.entries)
            &&& all_storable(rendered)
            &&& fits(rendered, end.capacity)
            &&& rendered.to_set() == end.entries.to_set()
            &&& rendered.len() == end.entries.len()
            &&& match end.mirror {
                None => end.entries.len() == 0,
                Some(text) => text == image_of(rendered),
            }
        }),
    decreases calls.len(),
{
    if calls.len() > 0 {
        let front = calls.drop_last();
        let before = after_all(view, front);
        let end = after_all(view, calls);
        assert(storable_puts(front)) by {
            assert forall|i: int| 0 <= i < front.len() implies (#[trigger] front[i] matches Call::Put {
                key,
                value,
            } ==> storable((key, value))) by {}
        }
        lemma_mirror_after(view, front);
        lemma_after_valid(before, calls.last());
        match calls.last() {
            Call::Put { key, value } => {
                lemma_put_contains(before.entries, before.capacity, key, value);
                assert forall|i: int| 0 <= i < end.entries.len() implies storable(
                    #[trigger] end.entries[i],
                ) by {
                    assert(end.entries.contains(end.entries[i]));
                }
            },
            Call::Get { key } => {
                lemma_touch(before.entries, before.capacity, key);
                assert forall|i: int| 0 <= i < end.entries.len() implies storable(
                    #[trigger] end.entries[i],
                ) by {
                    assert(end.entries.contains(end.entries[i]));
                }
            },
            Call::Remove { key } => {
                if has_key(before.entries, key) {
                    lemma_without_contains(before.entries, key);
                    assert forall|i: int| 0 <= i < end.entries.len() implies storable(
                        #[trigger] end.entries[i],
                    ) by {
                        assert(end.entries.contains(end.entries[i]));
                    }
                }
            },
            Call::Clear => {},
        }
    }
}

/// A cache that is made from the mirror that a run of calls has left, on
/// a cache that was settled when the run began, holds the same pairs of
/// key and value as the cache holds after the run, and as many. Their
/// order is that of the last rendering: reads since then do not show. A
/// cache without a mirror is empty, as is the cache that is made without
/// a file.
pub proof fn lemma_reload(view: CacheView, calls: Seq<Call>)
    requires
        view.settled(),
        storable_puts(calls),
    ensures
        ({
            let end = after_all(view, calls);
            match end.mirror {
                None => end.entries.len() == 0,
                Some(text) => {
                    &&& CacheView::fresh(end.capacity, end.file_path).loaded(text) matches Some(
                        back,
                    )
                    &&& back.entries.to_set() == end.entries.to_set()
                    &&& back.entries.len() == end.entries.len()
                    &&& back.entries == rendered_entries(view, calls)
                },
            }
        }),
{
    lemma_mirror_after(view, calls);
    let end = after_all(view, calls);
    let rendered = rendered_entries(view, calls);
    lemma_image_decodes(rendered);
    lemma_put_all_same(rendered, end.capacity);
}

} // verus!
