//! What a request handler decides.

pub mod cache_controller;
