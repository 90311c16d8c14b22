//! What can go wrong in the request layer.

use vstd::prelude::*;

verus! {

/// The failures that the request layer reports.
#[derive(Debug)]
pub enum CustomError {
    /// There is no such item.
    NotFound,
    /// The request makes no sense.
    BadRequest,
    /// The item list could not be read, changed or written.
    InternalServerError,
    /// The file of the item list could not be loaded.
    CacheDbLoadError,
}

/// The description of an error.
pub open spec fn description(error: CustomError) -> Seq<char> {
    match error {
        CustomError::NotFound => "404 Not Found"@,
        CustomError::BadRequest => "400 Bad Request"@,
        CustomError::InternalServerError => "500 Internal Server Error"@,
        CustomError::CacheDbLoadError => "Cache DB Load Error"@,
    }
}

impl CustomError {
    /// Describes the error.
    pub fn to_string(&self) -> (text: String)
        ensures
            text@ == description(*self),
    {
        match self {
            CustomError::NotFound => "404 Not Found".to_owned(),
            CustomError::BadRequest => "400 Bad Request".to_owned(),
            CustomError::InternalServerError => "500 Internal Server Error".to_owned(),
            CustomError::CacheDbLoadError => "Cache DB Load Error".to_owned(),
        }
    }
}

} // verus!
