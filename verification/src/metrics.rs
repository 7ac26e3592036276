//! Counters tracking data-source traffic: requests, errors, durations, and
//! how many records were fetched. The counting core is exact; the shared
//! shell wraps it in a lock so that clones count into the same totals.

use vstd::prelude::*;
use vstd::rwlock::{RwLock, RwLockPredicate};
use std::sync::Arc;
use crate::clock::MonotonicClock;

verus! {

/// Addition that wraps around at the counter width.
pub fn add_wrap(a: u64, b: u64) -> (r: u64)
    ensures
        r as int == (a + b) % 0x10000000000000000,
{
    let wide: u128 = a as u128 + b as u128;
    let r = (wide % 0x10000000000000000u128) as u64;
    r
}

/// The counters themselves; every operation says exactly how they move.
pub struct MetricsState {
    /// How many requests were made
    pub http_requests_total: u64,
    /// How many requests failed
    pub http_errors_total: u64,
    /// Total request duration, in milliseconds
    pub http_duration_total_ms: u64,
    /// How many contacts were fetched
    pub contacts_fetched_total: u64,
    /// How many notes were fetched
    pub notes_fetched_total: u64,
    /// How many reminders were fetched
    pub reminders_fetched_total: u64,
}

impl MetricsState {
    /// All counters at zero.
    pub fn new() -> (r: Self)
        ensures
            r.http_requests_total == 0,
            r.http_errors_total == 0,
            r.http_duration_total_ms == 0,
            r.contacts_fetched_total == 0,
            r.notes_fetched_total == 0,
            r.reminders_fetched_total == 0,
    {
        MetricsState {
            http_requests_total: 0,
            http_errors_total: 0,
            http_duration_total_ms: 0,
            contacts_fetched_total: 0,
            notes_fetched_total: 0,
            reminders_fetched_total: 0,
        }
    }

    /// Count one request and its duration; the counters wrap at their
    /// width.
    pub fn record_http_request(&mut self, duration_ms: u64)
        ensures
            *final(self) == (MetricsState {
                http_requests_total: ((old(self).http_requests_total + 1)
                    % 0x10000000000000000) as u64,
                http_duration_total_ms: ((old(self).http_duration_total_ms + duration_ms)
                    % 0x10000000000000000) as u64,
                ..*old(self)
            }),
    {
        self.http_requests_total = add_wrap(self.http_requests_total, 1);
        self.http_duration_total_ms = add_wrap(self.http_duration_total_ms, duration_ms);
    }

    /// Count one failed request.
    pub fn record_http_error(&mut self)
        ensures
            *final(self) == (MetricsState {
                http_errors_total: ((old(self).http_errors_total + 1)
                    % 0x10000000000000000) as u64,
                ..*old(self)
            }),
    {
        self.http_errors_total = add_wrap(self.http_errors_total, 1);
    }

    /// Count fetched contacts.
    pub fn record_contacts_fetched(&mut self, count: u64)
        ensures
            *final(self) == (MetricsState {
                contacts_fetched_total: ((old(self).contacts_fetched_total + count)
                    % 0x10000000000000000) as u64,
                ..*old(self)
            }),
    {
        self.contacts_fetched_total = add_wrap(self.contacts_fetched_total, count);
    }

    /// Count fetched notes.
    pub fn record_notes_fetched(&mut self, count: u64)
        ensures
            *final(self) == (MetricsState {
                notes_fetched_total: ((old(self).notes_fetched_total + count)
                    % 0x10000000000000000) as u64,
                ..*old(self)
            }),
    {
        self.notes_fetched_total = add_wrap(self.notes_fetched_total, count);
    }

    /// Count fetched reminders.
    pub fn record_reminders_fetched(&mut self, count: u64)
        ensures
            *final(self) == (MetricsState {
                reminders_fetched_total: ((old(self).reminders_fetched_total + count)
                    % 0x10000000000000000) as u64,
                ..*old(self)
            }),
    {
        self.reminders_fetched_total = add_wrap(self.reminders_fetched_total, count);
    }
}

/// Any counter values may live behind the metrics lock.
pub struct AnyMetrics {
}

impl RwLockPredicate<MetricsState> for AnyMetrics {
    open spec fn inv(self, v: MetricsState) -> bool {
        true
    }
}

/// A snapshot of the counters.
pub struct MetricsSummary {
    /// How many requests were made
    pub http_requests_total: u64,
    /// How many requests failed
    pub http_errors_total: u64,
    /// Total request duration, in milliseconds
    pub http_duration_total_ms: u64,
    /// How many contacts were fetched
    pub contacts_fetched_total: u64,
    /// How many notes were fetched
    pub notes_fetched_total: u64,
    /// How many reminders were fetched
    pub reminders_fetched_total: u64,
}

/// The shared metrics collector: clones count into the same totals.
#[derive(Clone)]
pub struct Metrics {
    inner: Arc<RwLock<MetricsState, AnyMetrics>>,
}

impl Metrics {
    /// A collector with every counter at zero.
    pub fn new() -> Metrics {
        Metrics { inner: Arc::new(RwLock::new(MetricsState::new(), Ghost(AnyMetrics {  }))) }
    }

    /// Count one request and its duration.
    pub fn record_http_request(&self, duration_ms: u64) {
        let (mut state, handle) = self.inner.acquire_write();
        state.record_http_request(duration_ms);
        handle.release_write(state);
    }

    /// Count one failed request.
    pub fn record_http_error(&self) {
        let (mut state, handle) = self.inner.acquire_write();
        state.record_http_error();
        handle.release_write(state);
    }

    /// Count fetched contacts.
    pub fn record_contacts_fetched(&self, count: usize) {
        let (mut state, handle) = self.inner.acquire_write();
        state.record_contacts_fetched(count as u64);
        handle.release_write(state);
    }

    /// Count fetched notes.
    pub fn record_notes_fetched(&self, count: usize) {
        let (mut state, handle) = self.inner.acquire_write();
        state.record_notes_fetched(count as u64);
        handle.release_write(state);
    }

    /// Count fetched reminders.
    pub fn record_reminders_fetched(&self, count: usize) {
        let (mut state, handle) = self.inner.acquire_write();
        state.record_reminders_fetched(count as u64);
        handle.release_write(state);
    }

    /// How many requests were made.
    pub fn http_requests_total(&self) -> u64 {
        let handle = self.inner.acquire_read();
        let n = handle.borrow().http_requests_total;
        handle.release_read();
        n
    }

    /// How many requests failed.
    pub fn http_errors_total(&self) -> u64 {
        let handle = self.inner.acquire_read();
        let n = handle.borrow().http_errors_total;
        handle.release_read();
        n
    }

    /// The total request duration, in milliseconds.
    pub fn http_duration_total_ms(&self) -> u64 {
        let handle = self.inner.acquire_read();
        let n = handle.borrow().http_duration_total_ms;
        handle.release_read();
        n
    }

    /// How many contacts were fetched.
    pub fn contacts_fetched_total(&self) -> u64 {
        let handle = self.inner.acquire_read();
        let n = handle.borrow().contacts_fetched_total;
        handle.release_read();
        n
    }

    /// How many notes were fetched.
    pub fn notes_fetched_total(&self) -> u64 {
        let handle = self.inner.acquire_read();
        let n = handle.borrow().notes_fetched_total;
        handle.release_read();
        n
    }

    /// How many reminders were fetched.
    pub fn reminders_fetched_total(&self) -> u64 {
        let handle = self.inner.acquire_read();
        let n = handle.borrow().reminders_fetched_total;
        handle.release_read();
        n
    }

    /// Set every counter back to zero.
    pub fn reset(&self) {
        let (state, handle) = self.inner.acquire_write();
        let _ = state;
        handle.release_write(MetricsState::new());
    }

    /// A snapshot of every counter, read together.
    pub fn summary(&self) -> MetricsSummary {
        let handle = self.inner.acquire_read();
        let s = handle.borrow();
        let summary = MetricsSummary {
            http_requests_total: s.http_requests_total,
            http_errors_total: s.http_errors_total,
            http_duration_total_ms: s.http_duration_total_ms,
            contacts_fetched_total: s.contacts_fetched_total,
            notes_fetched_total: s.notes_fetched_total,
            reminders_fetched_total: s.reminders_fetched_total,
        };
        handle.release_read();
        summary
    }
}

impl Default for Metrics {
    fn default() -> Self {
        Metrics::new()
    }
}

/// Times one request and records it into the collector when done.
pub struct HttpTimer {
    clock: MonotonicClock,
    metrics: Metrics,
}

impl HttpTimer {
    /// Start timing a request.
    pub fn new(metrics: Metrics) -> HttpTimer {
        HttpTimer { clock: MonotonicClock::start(), metrics }
    }

    /// Finish timing and count the request.
    pub fn complete(self) {
        let duration_ms = self.clock.now_millis();
        self.metrics.record_http_request(duration_ms);
    }

    /// Finish timing and count the request as failed.
    pub fn complete_with_error(self) {
        let duration_ms = self.clock.now_millis();
        self.metrics.record_http_request(duration_ms);
        self.metrics.record_http_error();
    }
}

} // verus!
