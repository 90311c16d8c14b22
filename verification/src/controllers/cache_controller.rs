//! The status of the reply to a request, decided from how the request went.

use vstd::prelude::*;
use crate::models::cache_response::CacheResponse;
use crate::models::custom_error::CustomError;

verus! {

/// The request was served.
pub const STATUS_OK: u16 = 200;

/// There is no such item.
pub const STATUS_NOT_FOUND: u16 = 404;

/// The request could not be served.
pub const STATUS_INTERNAL_SERVER_ERROR: u16 = 500;

/// The status of the reply to a lookup: an answer whose status is
/// `Not Found` is sent as such, any other answer is sent as a success, and
/// an error is an internal one. Only an answer has a body.
pub fn get_cache_item_by_key(outcome: &Result<CacheResponse, CustomError>) -> (status: u16)
    ensures
        status == match outcome {
            Ok(response) => if response.status@ == "Not Found"@ {
                STATUS_NOT_FOUND
            } else {
                STATUS_OK
            },
            Err(_) => STATUS_INTERNAL_SERVER_ERROR,
        },
{
    match outcome {
        Ok(cache_response) => {
            let not_found = "Not Found".to_owned();
            if cache_response.status == not_found {
                STATUS_NOT_FOUND
            } else {
                STATUS_OK
            }
        },
        Err(_) => STATUS_INTERNAL_SERVER_ERROR,
    }
}

/// The status of the reply to an insertion: an answer is sent as a
/// success, and an error is an internal one. Only an answer has a body.
pub fn insert_cache_item(outcome: &Result<CacheResponse, CustomError>) -> (status: u16)
    ensures
        status == match outcome {
            Ok(_) => STATUS_OK,
            Err(_) => STATUS_INTERNAL_SERVER_ERROR,
        },
{
    match outcome {
        Ok(_) => STATUS_OK,
        Err(_) => STATUS_INTERNAL_SERVER_ERROR,
    }
}

} // verus!
