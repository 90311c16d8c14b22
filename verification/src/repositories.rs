//! What the request layer does with the item list.

pub mod cache_repository;
