//! Lookups and insertions on an item list that was read from its file.

use vstd::prelude::*;
use crate::models::cache_db::{first_with_key, items_of, CacheDb, DbView};
use crate::models::cache_item::CacheItem;
use crate::models::cache_response::{CacheResponse, ResponseView};
use crate::models::custom_error::CustomError;

verus! {

/// Where the item list is stored unless another path is given.
pub const CACHE_DB_PATH: &'static str = "cache_default_db.db";

/// The size of the item list unless another is given.
pub const CACHE_DB_SIZE: usize = 10;

/// Makes the item list from the items that its file holds. Without a path
/// or a size, the list has the usual one.
pub fn load_cache_db(items: Vec<CacheItem>, path: Option<&str>, db_size: Option<usize>) -> (loaded:
    Result<CacheDb, CustomError>)
    ensures
        loaded matches Ok(repo) && repo@ == (DbView {
            items: items_of(items@),
            path: match path {
                Some(path) => path@,
                None => CACHE_DB_PATH@,
            },
            size: match db_size {
                Some(size) => size as nat,
                None => CACHE_DB_SIZE as nat,
            },
        }),
{
    let path = match path {
        Some(path) => path,
        None => CACHE_DB_PATH,
    };
    let size = match db_size {
        Some(size) => size,
        None => CACHE_DB_SIZE,
    };
    Ok(CacheDb::new(items, path.to_owned(), size))
}

/// Looks `key` up in the list: the item, if there is one, moves to the
/// front, and the answer tells where it stood.
pub fn get_item_by_key(repo: &mut CacheDb, key: &String) -> (answer: Result<
    CacheResponse,
    CustomError,
>)
    ensures
        match first_with_key(old(repo)@.items, key@) {
            Some(i) => {
                &&& final(repo)@ == old(repo)@.with_items(
                    seq![old(repo)@.items[i]] + old(repo)@.items.remove(i),
                )
                &&& answer matches Ok(response) && response@ == ResponseView::found(
                    (i + 1) as nat,
                    old(repo)@.items[i],
                )
            },
            None => {
                &&& final(repo)@ == old(repo)@
                &&& answer matches Ok(response) && response@ == ResponseView::not_found()
            },
        },
{
    match repo.get_item_by_key(key) {
        Ok(cache_response) => Ok(cache_response),
        Err(_) => Err(CustomError::InternalServerError),
    }
}

/// Inserts `item` at the front of the list, in place of the first item
/// with its key if there is one, and tells where that one stood.
pub fn insert_cache_item(repo: &mut CacheDb, item: &CacheItem) -> (answer: Result<
    CacheResponse,
    CustomError,
>)
    ensures
        match first_with_key(old(repo)@.items, item@.0) {
            Some(i) => {
                &&& final(repo)@ == old(repo)@.with_items(
                    seq![item@] + old(repo)@.items.remove(i),
                )
                &&& answer matches Ok(response) && response@ == ResponseView::inserted(
                    Some((i + 1) as nat),
                    item@,
                )
            },
            None => {
                &&& final(repo)@ == old(repo)@.with_items(seq![item@] + old(repo)@.items)
                &&& answer matches Ok(response) && response@ == ResponseView::inserted(None, item@)
            },
        },
{
    let previous_index: Option<usize> = match repo.remove_if_present(&item.key) {
        Ok(previous_index) => previous_index,
        Err(_) => return Err(CustomError::InternalServerError),
    };
    if let Err(error) = repo.insert(item) {
        return Err(error);
    }
    let index_readable: usize = 0 + 1;
    Ok(
        CacheResponse::new(
            "Inserted".to_owned(),
            None,
            Some(index_readable),
            previous_index,
            Some(item.clone()),
        ),
    )
}

} // verus!
