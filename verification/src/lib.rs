//! An in-process, time-bounded least-recently-used cache that sits in front of
//! a remote parameter lookup.
//!
//! The cache never reads a clock and never performs a fetch by itself: every
//! operation takes the current instant as a number of nanoseconds, and the
//! remote lookup is handed in either as a closure or as its outcome.

pub mod cache;
pub mod cache_item;
pub mod config;
pub mod laws;
pub mod recency;
pub mod store;

pub use cache::GetParameterStringBuilder;
pub use cache::Lookup;
pub use cache::ParameterCache;
pub use cache_item::CacheItem;
pub use config::CacheConfig;
