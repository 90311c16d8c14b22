//! What can go wrong in the cache engine.

use vstd::prelude::*;

verus! {

/// `std::io::Error`, carried through as an opaque value.
#[verifier::external_type_specification]
#[verifier::external_body]
pub struct ExIoError(std::io::Error);

/// The failures of the cache engine and of the code that stores its mirror.
#[derive(Debug)]
pub enum CustomError {
    /// The key is not in the cache.
    NotFound,
    /// The request makes no sense.
    BadRequest,
    /// The operating system refused an input or output operation.
    IoError(std::io::Error),
    /// The backing file cannot be read or does not hold a cache.
    CacheDbLoadError,
    /// The capacity is not one a cache can have.
    CacheDbCapacityError,
    /// The backing file cannot be written.
    CacheDbSaveError,
    /// The codec gave an error where a JSON text was wanted. It gives none
    /// on a string, so the engine never fails with this.
    SerializationError(serde_json::Error),
}

/// The words that open the description of an error; for an error without
/// an inner error they are the whole description.
pub open spec fn headline(error: CustomError) -> Seq<char> {
    match error {
        CustomError::NotFound => "404 Not Found"@,
        CustomError::BadRequest => "400 Bad Request"@,
        CustomError::IoError(_) => "IO Error: "@,
        CustomError::CacheDbLoadError => "Cache DB Load Error"@,
        CustomError::CacheDbCapacityError => "Cache DB Capacity Error"@,
        CustomError::CacheDbSaveError => "Cache DB Save Error"@,
        CustomError::SerializationError(_) => "Serialization Error: "@,
    }
}

/// The description of an error whose inner error, if it has one, describes
/// itself as `detail`: the headline, and behind it the detail.
pub open spec fn description(error: CustomError, detail: Seq<char>) -> Seq<char> {
    match error {
        CustomError::IoError(_) | CustomError::SerializationError(_) => headline(error) + detail,
        _ => headline(error),
    }
}

/// How `std::io::Error` describes itself, through its `Display`. Nothing is
/// claimed about the text.
#[verifier::external_body]
fn describe_io(error: &std::io::Error) -> String {
    error.to_string()
}

/// How `serde_json::Error` describes itself, through its `Display`. Nothing
/// is claimed about the text.
#[verifier::external_body]
fn describe_json(error: &serde_json::Error) -> String {
    error.to_string()
}

impl CustomError {
    /// Describes the error, given how its inner error describes itself.
    /// An error without an inner error has no use for the detail.
    pub fn described(&self, detail: &str) -> (text: String)
        ensures
            text@ == description(*self, detail@),
    {
        match self {
            CustomError::NotFound => "404 Not Found".to_owned(),
            CustomError::BadRequest => "400 Bad Request".to_owned(),
            CustomError::IoError(_) => "IO Error: ".to_owned().concat(detail),
            CustomError::CacheDbLoadError => "Cache DB Load Error".to_owned(),
            CustomError::CacheDbCapacityError => "Cache DB Capacity Error".to_owned(),
            CustomError::CacheDbSaveError => "Cache DB Save Error".to_owned(),
            CustomError::SerializationError(_) => "Serialization Error: ".to_owned().concat(detail),
        }
    }

    /// Describes the error: its headline, followed by the description that
    /// the inner error gives of itself where there is one.
    pub fn to_string(&self) -> (text: String)
        ensures
            exists|detail: Seq<char>| text@ == #[trigger] description(*self, detail),
            !(self is IoError || self is SerializationError) ==> text@ == headline(*self),
    {
        let detail = match self {
            CustomError::IoError(inner) => describe_io(inner),
            CustomError::SerializationError(inner) => describe_json(inner),
            _ => String::new(),
        };
        self.described(detail.as_str())
    }
}

impl From<std::io::Error> for CustomError {
    fn from(err: std::io::Error) -> (error: CustomError) {
        CustomError::IoError(err)
    }
}

impl vstd::std_specs::convert::FromSpecImpl<std::io::Error> for CustomError {
    open spec fn obeys_from_spec() -> bool {
        true
    }

    open spec fn from_spec(err: std::io::Error) -> CustomError {
        CustomError::IoError(err)
    }
}

impl From<serde_json::Error> for CustomError {
    fn from(err: serde_json::Error) -> (error: CustomError) {
        CustomError::SerializationError(err)
    }
}

impl vstd::std_specs::convert::FromSpecImpl<serde_json::Error> for CustomError {
    open spec fn obeys_from_spec() -> bool {
        true
    }

    open spec fn from_spec(err: serde_json::Error) -> CustomError {
        CustomError::SerializationError(err)
    }
}

} // verus!
