//! The item list of the request layer.

use vstd::prelude::*;
use crate::lru::Entry;
use crate::models::cache_item::CacheItem;
use crate::models::cache_response::{CacheResponse, ResponseView};
use crate::models::custom_error::CustomError;

verus! {

/// The entries that a vector of items stands for.
pub open spec fn items_of(items: Seq<CacheItem>) -> Seq<Entry> {
    items.map_values(|item: CacheItem| item@)
}

/// Where the first item with this key stands, if there is one.
pub open spec fn first_with_key(items: Seq<Entry>, key: Seq<char>) -> Option<int> {
    items.map_values(|item: Entry| item.0).index_of_first(key)
}

/// A list of items, most recently used first, with the path of the file
/// that stores it and the size it was declared with.
pub struct CacheDb {
    db: Vec<CacheItem>,
    path: String,
    size: usize,
}

/// What an item list is, to its callers.
pub struct DbView {
    /// The items, most recently used first.
    pub items: Seq<Entry>,
    /// Where the file of the list is.
    pub path: Seq<char>,
    /// The declared size.
    pub size: nat,
}

impl View for CacheDb {
    type V = DbView;

    closed spec fn view(&self) -> DbView {
        DbView { items: items_of(self.db@), path: self.path@, size: self.size as nat }
    }
}

impl DbView {
    /// The list with other items.
    pub open spec fn with_items(self, items: Seq<Entry>) -> DbView {
        DbView { items, ..self }
    }
}

impl CacheDb {
    /// The list that holds these items, with this path and this size.
    pub fn new(db: Vec<CacheItem>, path: String, size: usize) -> (made: CacheDb)
        ensures
            made@ == (DbView { items: items_of(db@), path: path@, size: size as nat }),
    {
        CacheDb { db, path, size }
    }

    /// The index of the first item with this key.
    fn position(&self, key: &String) -> (at: Option<usize>)
        ensures
            match at {
                Some(i) => i < self@.items.len() && first_with_key(self@.items, key@) == Some(
                    i as int,
                ),
                None => first_with_key(self@.items, key@).is_none(),
            },
    {
        let ghost keys = self@.items.map_values(|item: Entry| item.0);
        let mut i: usize = 0;
        while i < self.db.len()
            invariant
                i <= self.db.len(),
                keys == self@.items.map_values(|item: Entry| item.0),
                forall|j: int| 0 <= j < i ==> keys[j] != key@,
            decreases self.db.len() - i,
        {
            if self.db[i].key == *key {
                proof {
                    keys.index_of_first_ensures(key@);
                    assert(keys[i as int] == key@);
                }
                return Some(i);
            }
            i += 1;
        }
        proof {
            keys.index_of_first_ensures(key@);
        }
        None
    }

    /// Looks `key` up. The first item with this key is moved to the front
    /// of the list, and the answer tells where it stood; without such an
    /// item the answer is `Not Found` and the list stays as it is.
    pub fn get_item_by_key(&mut self, key: &String) -> (answer: Result<CacheResponse, CustomError>)
        ensures
            match first_with_key(old(self)@.items, key@) {
                Some(i) => {
                    &&& final(self)@ == old(self)@.with_items(
                        seq![old(self)@.items[i]] + old(self)@.items.remove(i),
                    )
                    &&& answer matches Ok(response) && response@ == ResponseView::found(
                        (i + 1) as nat,
                        old(self)@.items[i],
                    )
                },
                None => {
                    &&& final(self)@ == old(self)@
                    &&& answer matches Ok(response) && response@ == ResponseView::not_found()
                },
            },
    {
        match self.position(key) {
            Some(index) => {
                assert(index < self.db.len());
                let index_for_user_understand: usize = index + 1;
                let mut cache_response = CacheResponse::new(
                    "Found".to_owned(),
                    None,
                    Some(index_for_user_understand),
                    Some(index_for_user_understand),
                    Some(self.db[index].clone()),
                );
                let item = self.db[index].clone();
                if let Err(error) = self.remove_if_present(key) {
                    return Err(error);
                }
                if let Err(error) = self.insert(&item) {
                    return Err(error);
                }
                cache_response.current_position = Some(1);
                Ok(cache_response)
            },
            None => Ok(
                CacheResponse::new(
                    "Not Found".to_owned(),
                    Some("Item not found with this key".to_owned()),
                    None,
                    None,
                    None,
                ),
            ),
        }
    }

    /// Puts a copy of `cache_item` at the front of the list and hands
    /// back another.
    pub fn insert(&mut self, cache_item: &CacheItem) -> (inserted: Result<CacheItem, CustomError>)
        ensures
            final(self)@ == old(self)@.with_items(seq![cache_item@] + old(self)@.items),
            inserted matches Ok(item) && item@ == cache_item@,
    {
        let index: usize = 0;
        self.db.insert(index, cache_item.clone());
        assert(self@.items =~= seq![cache_item@] + old(self)@.items);
        Ok(cache_item.clone())
    }

    /// Takes the first item with this key out of the list and tells where
    /// it stood, counted from 1; `None` where there is no such item.
    pub fn remove_if_present(&mut self, key: &String) -> (removed: Result<
        Option<usize>,
        CustomError,
    >)
        ensures
            match first_with_key(old(self)@.items, key@) {
                Some(i) => {
                    &&& final(self)@ == old(self)@.with_items(old(self)@.items.remove(i))
                    &&& removed matches Ok(Some(position)) && position == i + 1
                },
                None => {
                    &&& final(self)@ == old(self)@
                    &&& removed matches Ok(None)
                },
            },
    {
        match self.position(key) {
            Some(index) => {
                self.db.remove(index);
                assert(self@.items =~= old(self)@.items.remove(index as int));
                let index_for_user_understand: usize = index + 1;
                Ok(Some(index_for_user_understand))
            },
            None => Ok(None),
        }
    }

    /// The items, most recently used first.
    pub fn items(&self) -> (items: &[CacheItem])
        ensures
            items_of(items@) == self@.items,
    {
        self.db.as_slice()
    }

    /// Where the file of the list is.
    pub fn path(&self) -> (path: &String)
        ensures
            path@ == self@.path,
    {
        &self.path
    }

    /// The declared size.
    pub fn size(&self) -> (size: usize)
        ensures
            size == self@.size,
    {
        self.size
    }
}

} // verus!
