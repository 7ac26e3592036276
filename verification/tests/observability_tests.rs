use dex_mcp_server::observability::{MetricsTracker, Timer};

#[test]
fn test_metrics_tracker_creation() {
    let tracker = MetricsTracker::new();
    assert_eq!(tracker.http_requests_total(), 0);
    assert_eq!(tracker.http_errors_total(), 0);
    assert_eq!(tracker.cache_hits_total(), 0);
    assert_eq!(tracker.cache_misses_total(), 0);
    assert_eq!(tracker.search_queries_total(), 0);
}

#[test]
fn test_track_http_request() {
    let tracker = MetricsTracker::new();

    tracker.track_http_request("get_contact", 100, true);
    assert_eq!(tracker.http_requests_total(), 1);
    assert_eq!(tracker.http_errors_total(), 0);

    tracker.track_http_request("get_contact", 200, false);
    assert_eq!(tracker.http_requests_total(), 2);
    assert_eq!(tracker.http_errors_total(), 1);
}

#[test]
fn test_track_cache_access() {
    let tracker = MetricsTracker::new();

    tracker.track_cache_access("contact_cache", true);
    assert_eq!(tracker.cache_hits_total(), 1);
    assert_eq!(tracker.cache_misses_total(), 0);

    tracker.track_cache_access("contact_cache", false);
    assert_eq!(tracker.cache_hits_total(), 1);
    assert_eq!(tracker.cache_misses_total(), 1);
}

#[test]
fn test_track_search_query() {
    let tracker = MetricsTracker::new();

    tracker.track_search_query(150, 5);
    assert_eq!(tracker.search_queries_total(), 1);
}

#[test]
fn metrics_test_summary() {
    let tracker = MetricsTracker::new();
    tracker.track_http_request("test", 100, true);
    tracker.track_cache_access("test", true);

    let summary = tracker.summary();
    assert!(summary.contains("HTTP Requests: 1"));
    assert!(summary.contains("Cache Hits: 1"));
}

#[test]
fn timer_reports_an_operation() {
    let timer = Timer::new("probe");
    assert_eq!(timer.operation(), "probe");
    let _elapsed = timer.finish();
}
