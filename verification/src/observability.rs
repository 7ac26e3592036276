//! Operational counters: requests, cache hits and misses, search queries,
//! with a plain-text summary; and a timer for measuring operations.

use vstd::prelude::*;
use vstd::rwlock::{RwLock, RwLockPredicate};
use vstd::string::StringExecFns;
use std::sync::Arc;
use crate::clock::MonotonicClock;
use crate::metrics::add_wrap;
use crate::text;

verus! {

/// The tracked counters; every operation says exactly how they move.
pub struct TrackerState {
    /// How many requests were made
    pub http_requests_total: u64,
    /// How many requests failed
    pub http_errors_total: u64,
    /// How many cache reads hit
    pub cache_hits_total: u64,
    /// How many cache reads missed
    pub cache_misses_total: u64,
    /// How many search queries ran
    pub search_queries_total: u64,
}

impl TrackerState {
    /// All counters at zero.
    pub fn new() -> (r: Self)
        ensures
            r.http_requests_total == 0,
            r.http_errors_total == 0,
            r.cache_hits_total == 0,
            r.cache_misses_total == 0,
            r.search_queries_total == 0,
    {
        TrackerState {
            http_requests_total: 0,
            http_errors_total: 0,
            cache_hits_total: 0,
            cache_misses_total: 0,
            search_queries_total: 0,
        }
    }

    /// Count one request; a failed one also counts as an error.
    pub fn track_http_request(&mut self, success: bool)
        ensures
            *final(self) == (TrackerState {
                http_requests_total: ((old(self).http_requests_total + 1)
                    % 0x10000000000000000) as u64,
                http_errors_total: if success {
                    old(self).http_errors_total
                } else {
                    ((old(self).http_errors_total + 1) % 0x10000000000000000) as u64
                },
                ..*old(self)
            }),
    {
        self.http_requests_total = add_wrap(self.http_requests_total, 1);
        if !success {
            self.http_errors_total = add_wrap(self.http_errors_total, 1);
        }
    }

    /// Count one cache read.
    pub fn track_cache_access(&mut self, hit: bool)
        ensures
            *final(self) == (TrackerState {
                cache_hits_total: if hit {
                    ((old(self).cache_hits_total + 1) % 0x10000000000000000) as u64
                } else {
                    old(self).cache_hits_total
                },
                cache_misses_total: if hit {
                    old(self).cache_misses_total
                } else {
                    ((old(self).cache_misses_total + 1) % 0x10000000000000000) as u64
                },
                ..*old(self)
            }),
    {
        if hit {
            self.cache_hits_total = add_wrap(self.cache_hits_total, 1);
        } else {
            self.cache_misses_total = add_wrap(self.cache_misses_total, 1);
        }
    }

    /// Count one search query.
    pub fn track_search_query(&mut self)
        ensures
            *final(self) == (TrackerState {
                search_queries_total: ((old(self).search_queries_total + 1)
                    % 0x10000000000000000) as u64,
                ..*old(self)
            }),
    {
        self.search_queries_total = add_wrap(self.search_queries_total, 1);
    }
}

/// Any counter values may live behind the tracker lock.
pub struct AnyTracker {
}

impl RwLockPredicate<TrackerState> for AnyTracker {
    open spec fn inv(self, v: TrackerState) -> bool {
        true
    }
}

/// The shared tracker: clones count into the same totals.
#[derive(Clone)]
pub struct MetricsTracker {
    inner: Arc<RwLock<TrackerState, AnyTracker>>,
}

impl MetricsTracker {
    /// A tracker with every counter at zero.
    pub fn new() -> MetricsTracker {
        MetricsTracker { inner: Arc::new(RwLock::new(TrackerState::new(), Ghost(AnyTracker {  }))) }
    }

    /// Count one request with its duration; a failed one also counts as an
    /// error. The method name and duration are informational only.
    pub fn track_http_request(&self, method: &str, duration_ms: u128, success: bool) {
        let _ = method;
        let _ = duration_ms;
        let (mut state, handle) = self.inner.acquire_write();
        state.track_http_request(success);
        handle.release_write(state);
    }

    /// Count one cache read of the named cache.
    pub fn track_cache_access(&self, cache_type: &str, hit: bool) {
        let _ = cache_type;
        let (mut state, handle) = self.inner.acquire_write();
        state.track_cache_access(hit);
        handle.release_write(state);
    }

    /// Count one search query; duration and result count are informational.
    pub fn track_search_query(&self, duration_ms: u128, result_count: usize) {
        let _ = duration_ms;
        let _ = result_count;
        let (mut state, handle) = self.inner.acquire_write();
        state.track_search_query();
        handle.release_write(state);
    }

    /// How many requests were made.
    pub fn http_requests_total(&self) -> u64 {
        let handle = self.inner.acquire_read();
        let n = handle.borrow().http_requests_total;
        handle.release_read();
        n
    }

    /// How many requests failed.
    pub fn http_errors_total(&self) -> u64 {
        let handle = self.inner.acquire_read();
        let n = handle.borrow().http_errors_total;
        handle.release_read();
        n
    }

    /// How many cache reads hit.
    pub fn cache_hits_total(&self) -> u64 {
        let handle = self.inner.acquire_read();
        let n = handle.borrow().cache_hits_total;
        handle.release_read();
        n
    }

    /// How many cache reads missed.
    pub fn cache_misses_total(&self) -> u64 {
        let handle = self.inner.acquire_read();
        let n = handle.borrow().cache_misses_total;
        handle.release_read();
        n
    }

    /// How many search queries ran.
    pub fn search_queries_total(&self) -> u64 {
        let handle = self.inner.acquire_read();
        let n = handle.borrow().search_queries_total;
        handle.release_read();
        n
    }

    /// A plain-text summary of every counter.
    pub fn summary(&self) -> String {
        let handle = self.inner.acquire_read();
        let s = handle.borrow();
        let requests = s.http_requests_total;
        let errors = s.http_errors_total;
        let hits = s.cache_hits_total;
        let misses = s.cache_misses_total;
        let queries = s.search_queries_total;
        handle.release_read();
        let mut out = text::str_to_string("Metrics Summary:\n");
        out.append("HTTP Requests: ");
        out.append(text::u64_to_string(requests).as_str());
        out.append("\nHTTP Errors: ");
        out.append(text::u64_to_string(errors).as_str());
        out.append("\nCache Hits: ");
        out.append(text::u64_to_string(hits).as_str());
        out.append("\nCache Misses: ");
        out.append(text::u64_to_string(misses).as_str());
        out.append("\nSearch Queries: ");
        out.append(text::u64_to_string(queries).as_str());
        out
    }
}

impl Default for MetricsTracker {
    fn default() -> Self {
        MetricsTracker::new()
    }
}

/// Times one operation.
pub struct Timer {
    clock: MonotonicClock,
    operation: String,
}

impl Timer {
    /// Start timing the named operation.
    pub fn new(operation: &str) -> Timer {
        Timer { clock: MonotonicClock::start(), operation: text::str_to_string(operation) }
    }

    /// The operation being timed.
    pub fn operation(&self) -> (r: &str) {
        self.operation.as_str()
    }

    /// Finish and return the elapsed milliseconds.
    pub fn finish(self) -> u128 {
        self.clock.now_millis() as u128
    }

    /// Finish with an outcome and return the elapsed milliseconds.
    pub fn finish_with_status(self, success: bool) -> u128 {
        let _ = success;
        self.clock.now_millis() as u128
    }
}

} // verus!
