//! The answer to a request.

use vstd::prelude::*;
use crate::lru::Entry;
use crate::models::cache_item::CacheItem;

verus! {

/// The answer to a lookup or to an insertion.
#[derive(Debug)]
pub struct CacheResponse {
    /// `Found`, `Not Found` or `Inserted`.
    pub status: String,
    /// What there is to say beyond the status.
    pub details: Option<String>,
    /// Where the item stands now, counted from 1.
    pub current_position: Option<usize>,
    /// Where the item stood before the request, counted from 1.
    pub previous_position: Option<usize>,
    /// The item that the request was about.
    pub cache_item: Option<CacheItem>,
}

/// What an answer says.
pub struct ResponseView {
    pub status: Seq<char>,
    pub details: Option<Seq<char>>,
    pub current_position: Option<nat>,
    pub previous_position: Option<nat>,
    pub cache_item: Option<Entry>,
}

impl View for CacheResponse {
    type V = ResponseView;

    open spec fn view(&self) -> ResponseView {
        ResponseView {
            status: self.status@,
            details: match self.details {
                Some(text) => Some(text@),
                None => None,
            },
            current_position: match self.current_position {
                Some(n) => Some(n as nat),
                None => None,
            },
            previous_position: match self.previous_position {
                Some(n) => Some(n as nat),
                None => None,
            },
            cache_item: match self.cache_item {
                Some(item) => Some(item@),
                None => None,
            },
        }
    }
}

impl ResponseView {
    /// The answer to a lookup that found `item` at position `position`
    /// and moved it to the front.
    pub open spec fn found(position: nat, item: Entry) -> ResponseView {
        ResponseView {
            status: "Found"@,
            details: None,
            current_position: Some(1),
            previous_position: Some(position),
            cache_item: Some(item),
        }
    }

    /// The answer to a lookup that found nothing.
    pub open spec fn not_found() -> ResponseView {
        ResponseView {
            status: "Not Found"@,
            details: Some("Item not found with this key"@),
            current_position: None,
            previous_position: None,
            cache_item: None,
        }
    }

    /// The answer to the insertion of `item`, which stood at `previous`
    /// before if its key was known.
    pub open spec fn inserted(previous: Option<nat>, item: Entry) -> ResponseView {
        ResponseView {
            status: "Inserted"@,
            details: None,
            current_position: Some(1),
            previous_position: previous,
            cache_item: Some(item),
        }
    }
}

impl CacheResponse {
    /// The answer made of these parts.
    pub fn new(
        status: String,
        details: Option<String>,
        current_position: Option<usize>,
        previous_position: Option<usize>,
        cache_item: Option<CacheItem>,
    ) -> (response: CacheResponse)
        ensures
            response.status == status,
            response.details == details,
            response.current_position == current_position,
            response.previous_position == previous_position,
            response.cache_item == cache_item,
    {
        CacheResponse { status, details, current_position, previous_position, cache_item }
    }
}

impl CacheResponse {
    /// Tells whether this is the answer to a lookup that found its item,
    /// and so moved it to the front of the list.
    pub fn is_found(&self) -> (found: bool)
        ensures
            found == (self.status@ == "Found"@),
    {
        let found = "Found".to_owned();
        self.status == found
    }
}

impl Clone for CacheResponse {
    /// A copy that says the same.
    fn clone(&self) -> (copy: CacheResponse)
        ensures
            copy@ == self@,
    {
        CacheResponse {
            status: self.status.clone(),
            details: match &self.details {
                Some(text) => Some(text.clone()),
                None => None,
            },
            current_position: self.current_position,
            previous_position: self.previous_position,
            cache_item: match &self.cache_item {
                Some(item) => Some(item.clone()),
                None => None,
            },
        }
    }
}

impl Default for CacheResponse {
    /// The answer that says nothing.
    fn default() -> (response: CacheResponse)
        ensures
            response@ == (ResponseView {
                status: Seq::empty(),
                details: None,
                current_position: None,
                previous_position: None,
                cache_item: None,
            }),
    {
        CacheResponse {
            status: String::new(),
            details: None,
            current_position: None,
            previous_position: None,
            cache_item: None,
        }
    }
}

} // verus!
