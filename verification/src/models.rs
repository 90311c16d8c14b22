//! The values that the request layer passes around.

pub mod cache_db;
pub mod cache_item;
pub mod cache_response;
pub mod custom_error;
