//! The calls that the request handlers make.

pub mod cache_service;
