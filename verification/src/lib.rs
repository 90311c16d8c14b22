//! A bounded key-value cache with least-recently-used eviction that keeps a
//! line-oriented text mirror of its entries, and the small request layer that
//! serves lookups and insertions from an item list.

pub mod controllers;
pub mod errors;
pub mod history;
pub mod image;
pub mod json;
pub mod lru;
pub mod models;
pub mod persistent;
pub mod recency;
pub mod repositories;
pub mod services;
pub mod text;

pub use errors::CustomError;
pub use models::cache_db::CacheDb;
pub use models::cache_item::CacheItem;
pub use models::cache_response::CacheResponse;
pub use persistent::CacheDB;
pub use repositories::cache_repository;
pub use services::cache_service;
