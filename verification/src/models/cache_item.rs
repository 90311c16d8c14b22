//! One item of the item list.

use vstd::prelude::*;
use crate::lru::Entry;

verus! {

/// A key with its value.
#[derive(Debug)]
pub struct CacheItem {
    pub key: String,
    pub value: String,
}

impl View for CacheItem {
    type V = Entry;

    open spec fn view(&self) -> Entry {
        (self.key@, self.value@)
    }
}

impl CacheItem {
    /// The item with this key and this value.
    pub fn new(key: String, value: String) -> (item: CacheItem)
        ensures
            item@ == (key@, value@),
    {
        CacheItem { key, value }
    }
}

impl Clone for CacheItem {
    /// A copy with the same key and the same value.
    fn clone(&self) -> (copy: CacheItem)
        ensures
            copy@ == self@,
    {
        CacheItem { key: self.key.clone(), value: self.value.clone() }
    }
}

impl Default for CacheItem {
    /// The item whose key and value are empty.
    fn default() -> (item: CacheItem)
        ensures
            item@ == (Seq::<char>::empty(), Seq::<char>::empty()),
    {
        CacheItem { key: String::new(), value: String::new() }
    }
}

} // verus!
