//! Lookups and insertions as the request handlers ask for them: whatever
//! goes wrong below is an internal error to them.

use vstd::prelude::*;
use crate::models::cache_db::{first_with_key, CacheDb};
use crate::models::cache_item::CacheItem;
use crate::models::cache_response::{CacheResponse, ResponseView};
use crate::models::custom_error::CustomError;
use crate::repositories::cache_repository;

verus! {

/// Looks `key` up in the list: the item, if there is one, moves to the
/// front, and the answer tells where it stood.
pub fn get_item_by_key(repo: &mut CacheDb, key: &String) -> (answer: Result<
    CacheResponse,
    CustomError,
>)
    ensures
        match first_with_key(old(repo)@.items, key@) {
            Some(i) => {
                &&& final(repo)@ == old(repo)@.with_items(
                    seq![old(repo)@.items[i]] + old(repo)@.items.remove(i),
                )
                &&& answer matches Ok(response) && response@ == ResponseView::found(
                    (i + 1) as nat,
                    old(repo)@.items[i],
                )
            },
            None => {
                &&& final(repo)@ == old(repo)@
                &&& answer matches Ok(response) && response@ == ResponseView::not_found()
            },
        },
{
    match cache_repository::get_item_by_key(repo, key) {
        Ok(cache_response) => Ok(cache_response),
        Err(_) => Err(CustomError::InternalServerError),
    }
}

/// Inserts `cache_item` at the front of the list, in place of the first
/// item with its key if there is one, and tells where that one stood.
pub fn insert_item(repo: &mut CacheDb, cache_item: CacheItem) -> (answer: Result<
    CacheResponse,
    CustomError,
>)
    ensures
        match first_with_key(old(repo)@.items, cache_item@.0) {
            Some(i) => {
                &&& final(repo)@ == old(repo)@.with_items(
                    seq![cache_item@] + old(repo)@.items.remove(i),
                )
                &&& answer matches Ok(response) && response@ == ResponseView::inserted(
                    Some((i + 1) as nat),
                    cache_item@,
                )
            },
            None => {
                &&& final(repo)@ == old(repo)@.with_items(seq![cache_item@] + old(repo)@.items)
                &&& answer matches Ok(response) && response@ == ResponseView::inserted(
                    None,
                    cache_item@,
                )
            },
        },
{
    match cache_repository::insert_cache_item(repo, &cache_item) {
        Ok(result) => Ok(result),
        Err(_) => Err(CustomError::InternalServerError),
    }
}

} // verus!
