//! An in-memory movie record store with an invalidate-on-write lookup cache.
//!
//! The store is the single source of truth: it maps each identifier to the one
//! record written under it, and refuses a second write to the same identifier.
//! The cache keeps recent lookup results (hits and misses) in front of it and is
//! proved never to change what a caller observes.
pub mod cache;
pub mod laws;
pub mod movie;
pub mod service;
pub mod store;

pub use cache::LookupCache;
pub use movie::{DuplicateId, Movie, NotFound};
pub use service::{MovieService, DEFAULT_CACHE_CAPACITY};
pub use store::MoviesState;
