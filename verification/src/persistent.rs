//! The cache engine: a bounded list of entries in recency order, and the
//! text mirror of it that the backing file is to hold.
//!
//! The engine does no input or output. It is handed what the backing file
//! held when the cache was made, and after every change it renders the text
//! that the file must hold next. Whoever owns the file writes that text out.
//!
//! Rendering cannot fail: every string has a JSON text. So a call fails
//! only where the cache says why: a key that is not there, a file that
//! stores no list of entries.

use vstd::prelude::*;
use crate::errors::CustomError;
use crate::history::lemma_settled_reloads;
use crate::image::{
    all_storable, decode_image, decode_lines, entry_line, entry_of, image_of,
    lemma_decode_lines_spoiled, lines_of, split_entry, split_lines, storable, storable_entry,
    texts_of,
};
use crate::json::{decode, encode, reads_back};
use crate::lru::{
    self, fits, has_key, lemma_lookup, lemma_put_fits, lemma_put_lookup, lemma_without,
    lemma_without_remove, lookup, put_all, Entry,
};

verus! {

/// The entries that a vector of string pairs stands for.
pub open spec fn entries_of(pairs: Seq<(String, String)>) -> Seq<Entry> {
    pairs.map_values(|p: (String, String)| (p.0@, p.1@))
}

/// Every key and every value survives the codec.
pub open spec fn all_read_back(entries: Seq<Entry>) -> bool {
    forall|i: int|
        0 <= i < entries.len() ==> reads_back((#[trigger] entries[i]).0) && reads_back(
            entries[i].1,
        )
}

/// What a cache is, to its callers.
pub struct CacheView {
    /// The entries, from the least recently used to the most recently used.
    pub entries: Seq<Entry>,
    /// How many entries the cache may hold.
    pub capacity: nat,
    /// Where the backing file is.
    pub file_path: Seq<char>,
    /// The text last rendered for the backing file; `None` until there is one.
    pub mirror: Option<Seq<char>>,
}

impl CacheView {
    /// What holds of every cache: it has room for an entry, it holds no
    /// more entries than it has room for, and no key twice.
    pub open spec fn valid(self) -> bool {
        fits(self.entries, self.capacity)
    }

    /// A cache that has no entries and no mirror yet.
    pub open spec fn fresh(capacity: nat, file_path: Seq<char>) -> CacheView {
        CacheView { entries: Seq::empty(), capacity, file_path, mirror: None }
    }

    /// The cache with its mirror brought up to date.
    pub open spec fn saved(self) -> CacheView {
        CacheView { mirror: Some(image_of(self.entries)), ..self }
    }

    /// The cache after `key` was given `value`.
    pub open spec fn put(self, key: Seq<char>, value: Seq<char>) -> CacheView {
        CacheView { entries: lru::put(self.entries, self.capacity, key, value), ..self }.saved()
    }

    /// The cache after `key` was read: the mirror is not brought up to date.
    pub open spec fn get(self, key: Seq<char>) -> CacheView {
        CacheView { entries: lru::touch(self.entries, key), ..self }
    }

    /// The cache after `key` was taken out; a key that it does not hold
    /// changes nothing.
    pub open spec fn remove(self, key: Seq<char>) -> CacheView {
        if has_key(self.entries, key) {
            CacheView { entries: lru::without(self.entries, key), ..self }.saved()
        } else {
            self
        }
    }

    /// The cache after it was emptied.
    pub open spec fn clear(self) -> CacheView {
        CacheView { entries: Seq::empty(), ..self }.saved()
    }

    /// The cache after it has loaded `contents`: the entries that the text
    /// stores are put one by one into an empty list, which becomes the
    /// list of the cache. `None` where the text stores no list of entries.
    pub open spec fn loaded(self, contents: Seq<char>) -> Option<CacheView> {
        match decode_image(contents) {
            None => None,
            Some(stored) => Some(
                CacheView { entries: put_all(stored, self.capacity), ..self }.saved(),
            ),
        }
    }

    /// A cache whose mirror is up to date and whose entries are storable:
    /// a cache that is made from its mirror, or without a file where it has
    /// no mirror, is this cache again.
    pub open spec fn settled(self) -> bool {
        &&& self.valid()
        &&& all_storable(self.entries)
        &&& match self.mirror {
            None => self.entries.len() == 0,
            Some(text) => text == image_of(self.entries),
        }
    }

    /// The cache that is made from what the backing file of this cache
    /// holds, if the file holds its mirror: a fresh cache where there is
    /// no mirror, and else what loading the mirror leaves.
    pub open spec fn reloaded(self) -> Option<CacheView> {
        match self.mirror {
            None => Some(CacheView::fresh(self.capacity, self.file_path)),
            Some(text) => CacheView::fresh(self.capacity, self.file_path).loaded(text),
        }
    }
}

/// The index of the entry with this key.
fn find(cache: &Vec<(String, String)>, key: &String) -> (at: Option<usize>)
    ensures
        match at {
            Some(i) => i < cache.len() && entries_of(cache@)[i as int].0 == key@,
            None => !has_key(entries_of(cache@), key@),
        },
{
    let mut i: usize = 0;
    while i < cache.len()
        invariant
            i <= cache.len(),
            forall|j: int| 0 <= j < i ==> entries_of(cache@)[j].0 != key@,
        decreases cache.len() - i,
    {
        if cache[i].0 == *key {
            return Some(i);
        }
        i += 1;
    }
    None
}

/// Puts an entry into a list that fits `capacity`.
fn insert_entry(cache: &mut Vec<(String, String)>, capacity: usize, key: String, value: String)
    requires
        fits(entries_of(old(cache)@), capacity as nat),
    ensures
        entries_of(final(cache)@) == lru::put(entries_of(old(cache)@), capacity as nat, key@, value@),
        fits(entries_of(final(cache)@), capacity as nat),
{
    let ghost before = entries_of(cache@);
    let ghost after = lru::put(before, capacity as nat, key@, value@);
    proof {
        lemma_put_fits(before, capacity as nat, key@, value@);
    }
    match find(cache, &key) {
        Some(i) => {
            proof {
                lemma_without_remove(before, i as int);
            }
            cache.remove(i);
            cache.push((key, value));
        },
        None => {
            if cache.len() >= capacity {
                cache.remove(0);
            }
            cache.push((key, value));
        },
    }
    assert(entries_of(cache@) =~= after);
}

/// Renders a list into `text`: one line per entry, from the head of the
/// list to its tail.
fn render(cache: &Vec<(String, String)>, text: &mut String) -> (outcome: Result<(), CustomError>)
    requires
        old(text)@.len() == 0,
    ensures
        outcome is Ok,
        final(text)@ == image_of(entries_of(cache@)),
        all_read_back(entries_of(cache@)),
{
    let ghost entries = entries_of(cache@);
    let n: usize = cache.len();
    let mut i: usize = 0;
    assert(text@ =~= image_of(entries.take(0)));
    while i < n
        invariant
            i <= n,
            n == cache.len(),
            entries == entries_of(cache@),
            text@ == image_of(entries.take(i as int)),
            all_read_back(entries.take(i as int)),
        decreases n - i,
    {
        let key_json = encode(&cache[i].0);
        let value_json = encode(&cache[i].1);
        let line = match entry_line(key_json, value_json) {
            Ok(line) => line,
            Err(error) => return Err(error),
        };
        text.append(line.as_str());
        proof {
            assert(entries.take(i + 1).drop_last() =~= entries.take(i as int));
            assert forall|j: int| 0 <= j < i + 1 implies reads_back(
                (#[trigger] entries.take(i + 1)[j]).0,
            ) && reads_back(entries.take(i + 1)[j].1) by {}
        }
        i += 1;
    }
    assert(entries.take(n as int) =~= entries);
    Ok(())
}

/// A bounded key-value cache that evicts its least recently used entry and
/// keeps a text mirror of its entries for a backing file.
pub struct CacheDB {
    cache: Vec<(String, String)>,
    capacity: usize,
    file_path: String,
    mirror: Option<String>,
}

impl View for CacheDB {
    type V = CacheView;

    closed spec fn view(&self) -> CacheView {
        CacheView {
            entries: entries_of(self.cache@),
            capacity: self.capacity as nat,
            file_path: self.file_path@,
            mirror: match self.mirror {
                Some(text) => Some(text@),
                None => None,
            },
        }
    }
}

impl CacheDB {
    /// What the engine keeps true of itself: the list fits the capacity.
    #[verifier::type_invariant]
    closed spec fn well_formed(&self) -> bool {
        fits(entries_of(self.cache@), self.capacity as nat)
    }

    /// Makes a cache of `capacity` entries for the backing file at
    /// `file_path`. `contents` is what that file holds, `None` if there is
    /// no such file: a cache without a file starts fresh, and one with a
    /// file loads it.
    pub fn new_persistent(capacity: usize, file_path: &str, contents: Option<&str>) -> (made: Result<
        CacheDB,
        CustomError,
    >)
        requires
            capacity > 0,
        ensures
            match contents {
                None => made matches Ok(cache) && cache@ == CacheView::fresh(
                    capacity as nat,
                    file_path@,
                ),
                Some(text) => match CacheView::fresh(capacity as nat, file_path@).loaded(text@) {
                    None => made matches Err(CustomError::CacheDbLoadError),
                    Some(intended) => made matches Ok(cache) && cache@ == intended,
                },
            },
            made matches Ok(cache) ==> cache@.valid() && all_read_back(cache@.entries),
    {
        let mut persistent_cache = CacheDB {
            cache: Vec::new(),
            capacity,
            file_path: file_path.to_owned(),
            mirror: None,
        };
        assert(persistent_cache@.entries =~= Seq::empty());
        match contents {
            None => Ok(persistent_cache),
            Some(text) => match persistent_cache.load(text) {
                Ok(_) => Ok(persistent_cache),
                Err(error) => Err(error),
            },
        }
    }

    /// Renders the entries into the mirror: one line per entry, from the
    /// head of the list to its tail. This cannot fail.
    pub fn save(&mut self) -> (outcome: Result<(), CustomError>)
        ensures
            outcome is Ok,
            final(self)@ == old(self)@.saved(),
            all_read_back(final(self)@.entries),
            final(self)@.valid(),
    {
        proof {
            use_type_invariant(&*self);
        }
        let mut text = String::new();
        let outcome = render(&self.cache, &mut text);
        self.mirror = Some(text);
        outcome
    }

    /// Loads what the backing file holds: the entries that `contents`
    /// stores are put one by one into an empty list, which becomes the
    /// list of the cache and is rendered at once. A text that stores no
    /// list of entries is refused, and the cache stays as it is; any other
    /// text is loaded.
    pub fn load(&mut self, contents: &str) -> (outcome: Result<(), CustomError>)
        ensures
            match old(self)@.loaded(contents@) {
                None => {
                    &&& outcome matches Err(CustomError::CacheDbLoadError)
                    &&& final(self)@ == old(self)@
                },
                Some(intended) => {
                    &&& outcome is Ok
                    &&& final(self)@ == intended
                    &&& all_read_back(final(self)@.entries)
                },
            },
            final(self)@.valid(),
    {
        proof {
            use_type_invariant(&*self);
        }
        let lines = split_lines(contents);
        let mut cache: Vec<(String, String)> = Vec::new();
        let mut i: usize = 0;
        while i < lines.len()
            invariant
                i <= lines.len(),
                *self == *old(self),
                self@.valid(),
                texts_of(lines@) == lines_of(contents@),
                decode_lines(texts_of(lines@).take(i as int)) matches Some(stored) && entries_of(
                    cache@,
                ) == put_all(stored, self.capacity as nat),
                fits(entries_of(cache@), self.capacity as nat),
            decreases lines.len() - i,
        {
            let ghost texts = texts_of(lines@);
            proof {
                assert(texts.take(i + 1).drop_last() =~= texts.take(i as int));
            }
            if !lines[i].as_str().is_empty() {
                let sides = split_entry(lines[i].as_str());
                let (key_text, value_text) = match sides {
                    Some(sides) => sides,
                    None => {
                        proof {
                            lemma_decode_lines_spoiled(texts, i + 1);
                        }
                        return Err(CustomError::CacheDbLoadError);
                    },
                };
                let key = decode(key_text.as_str());
                let value = decode(value_text.as_str());
                let (key, value) = match entry_of(key, value) {
                    Ok(entry) => entry,
                    Err(error) => {
                        proof {
                            lemma_decode_lines_spoiled(texts, i + 1);
                        }
                        return Err(error);
                    },
                };
                proof {
                    let stored = decode_lines(texts.take(i as int))->0;
                    assert(stored.push((key@, value@)).drop_last() =~= stored);
                }
                insert_entry(&mut cache, self.capacity, key, value);
            }
            i += 1;
        }
        assert(texts_of(lines@).take(i as int) =~= texts_of(lines@));
        self.cache = cache;
        self.save()
    }

    /// Gives `key` the value `value`. A key that the cache holds moves to
    /// the most recently used end with its new value; a new key is added
    /// there, after the least recently used entry has left a full cache.
    /// The entries are then rendered into the mirror. This cannot fail.
    pub fn put(&mut self, key: String, value: String) -> (outcome: Result<(), CustomError>)
        ensures
            outcome is Ok,
            final(self)@ == old(self)@.put(key@, value@),
            all_read_back(final(self)@.entries),
            final(self)@.valid(),
            final(self)@.entries.last() == (key@, value@),
            lookup(final(self)@.entries, key@) == Some(value@),
    {
        proof {
            use_type_invariant(&*self);
            lemma_put_fits(self@.entries, self@.capacity, key@, value@);
            lemma_put_lookup(self@.entries, self@.capacity, key@, value@);
        }
        let mut cache: Vec<(String, String)> = Vec::new();
        std::mem::swap(&mut cache, &mut self.cache);
        insert_entry(&mut cache, self.capacity, key, value);
        self.cache = cache;
        self.save()
    }

    /// Reads the value of `key`. Reading is a use: the entry moves to the
    /// most recently used end. The mirror is left as it is.
    pub fn get(&mut self, key: &String) -> (found: Option<&String>)
        ensures
            final(self)@ == old(self)@.get(key@),
            match found {
                Some(value) => {
                    &&& has_key(old(self)@.entries, key@)
                    &&& lookup(old(self)@.entries, key@) == Some(value@)
                    &&& final(self)@.entries.last() == (key@, value@)
                },
                None => !has_key(old(self)@.entries, key@) && final(self)@ == old(self)@,
            },
            final(self)@.entries.len() == old(self)@.entries.len(),
            final(self)@.valid(),
    {
        proof {
            use_type_invariant(&*self);
            lemma_lookup(self@.entries, key@);
            lemma_without(self@.entries, key@);
        }
        let ghost before = self@.entries;
        let mut cache: Vec<(String, String)> = Vec::new();
        std::mem::swap(&mut cache, &mut self.cache);
        match find(&cache, key) {
            Some(i) => {
                proof {
                    lemma_without_remove(before, i as int);
                    lemma_put_fits(before, self.capacity as nat, key@, before[i as int].1);
                }
                let element = cache.remove(i);
                cache.push(element);
                assert(entries_of(cache@) =~= lru::touch(before, key@));
                self.cache = cache;
                let last: usize = self.cache.len() - 1;
                Some(&self.cache[last].1)
            },
            None => {
                self.cache = cache;
                None
            },
        }
    }

    /// Takes `key` and its value out of the cache and renders what is
    /// left. A key that the cache does not hold is reported, and nothing
    /// changes; the call fails in no other way.
    pub fn remove(&mut self, key: &String) -> (outcome: Result<(), CustomError>)
        ensures
            if has_key(old(self)@.entries, key@) {
                &&& outcome is Ok
                &&& final(self)@ == old(self)@.remove(key@)
                &&& all_read_back(final(self)@.entries)
                &&& final(self)@.entries.len() == old(self)@.entries.len() - 1
            } else {
                outcome matches Err(CustomError::NotFound) && final(self)@ == old(self)@
            },
            !has_key(final(self)@.entries, key@),
            final(self)@.valid(),
    {
        proof {
            use_type_invariant(&*self);
            lemma_without(self@.entries, key@);
        }
        let ghost before = self@.entries;
        let mut cache: Vec<(String, String)> = Vec::new();
        std::mem::swap(&mut cache, &mut self.cache);
        match find(&cache, key) {
            Some(i) => {
                proof {
                    lemma_without_remove(before, i as int);
                }
                cache.remove(i);
                assert(entries_of(cache@) =~= lru::without(before, key@));
                self.cache = cache;
                self.save()
            },
            None => {
                self.cache = cache;
                Err(CustomError::NotFound)
            },
        }
    }

    /// Empties the cache and renders the empty list: the mirror becomes the
    /// empty text. This cannot fail.
    pub fn clear(&mut self) -> (outcome: Result<(), CustomError>)
        ensures
            outcome is Ok,
            final(self)@ == old(self)@.clear(),
            final(self)@.valid(),
    {
        proof {
            use_type_invariant(&*self);
        }
        self.cache = Vec::new();
        assert(self@.entries =~= Seq::empty());
        self.save()
    }

    /// Tells whether the cache is settled: whether its keys are plain and
    /// its mirror is up to date, which it is not after a read that has
    /// moved an entry. A cache that is made from what the backing file of
    /// a settled cache holds is that cache again.
    pub fn is_settled(&self) -> (ok: bool)
        ensures
            ok == self@.settled(),
            ok ==> self@.reloaded() == Some(self@),
    {
        proof {
            use_type_invariant(self);
        }
        let mut text = String::new();
        let rendered = render(&self.cache, &mut text);
        let current = match &self.mirror {
            Some(mirror) => rendered.is_ok() && *mirror == text,
            None => self.cache.len() == 0,
        };
        let mut plain = true;
        let mut i: usize = 0;
        while i < self.cache.len()
            invariant
                i <= self.cache.len(),
                plain == all_storable(self@.entries.take(i as int)),
            decreases self.cache.len() - i,
        {
            let ghost entries = self@.entries;
            let comes_back = storable_entry(&self.cache[i].0, &self.cache[i].1);
            proof {
                assert(entries.take(i + 1).drop_last() =~= entries.take(i as int));
                assert(entries.take(i + 1).last() == entries[i as int]);
                if plain && comes_back {
                    assert forall|j: int| 0 <= j < i + 1 implies storable(
                        #[trigger] entries.take(i + 1)[j],
                    ) by {
                        if j < i {
                            assert(entries.take(i as int)[j] == entries.take(i + 1)[j]);
                        }
                    }
                } else if plain {
                    assert(!storable(entries.take(i + 1)[i as int]));
                } else {
                    let j = choose|j: int|
                        0 <= j < i && !storable(#[trigger] entries.take(i as int)[j]);
                    assert(!storable(entries.take(i + 1)[j]));
                }
            }
            plain = plain && comes_back;
            i += 1;
        }
        proof {
            assert(self@.entries.take(i as int) =~= self@.entries);
            if current && plain {
                lemma_settled_reloads(self@);
            }
        }
        current && plain
    }

    /// The entries, from the least recently used to the most recently
    /// used. Looking at them is no use of any.
    pub fn iter(&self) -> (pairs: &[(String, String)])
        ensures
            entries_of(pairs@) == self@.entries,
    {
        self.cache.as_slice()
    }

    /// How many entries the cache holds: never more than its capacity.
    pub fn len(&self) -> (count: usize)
        ensures
            count == self@.entries.len(),
            count <= self@.capacity,
    {
        proof {
            use_type_invariant(self);
        }
        self.cache.len()
    }

    /// How many entries the cache may hold: at least one.
    pub fn capacity(&self) -> (capacity: usize)
        ensures
            capacity == self@.capacity,
            capacity > 0,
    {
        proof {
            use_type_invariant(self);
        }
        self.capacity
    }

    /// Where the backing file is.
    pub fn file_path(&self) -> (path: &String)
        ensures
            path@ == self@.file_path,
    {
        &self.file_path
    }

    /// The text that the backing file is to hold, if one was rendered.
    pub fn mirror(&self) -> (text: Option<&String>)
        ensures
            match text {
                Some(text) => self@.mirror == Some(text@),
                None => self@.mirror.is_none(),
            },
    {
        self.mirror.as_ref()
    }
}

} // verus!
