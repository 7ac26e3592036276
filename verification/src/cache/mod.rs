//! A thread-safe cache whose entries expire after a fixed time to live.

pub mod timed_cache;

pub use timed_cache::{CacheKey, CacheState, TimedCache};
