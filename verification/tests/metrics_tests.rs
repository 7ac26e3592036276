use dex_mcp_server::{HttpTimer, Metrics};

#[test]
fn test_metrics_creation() {
    let metrics = Metrics::new();
    assert_eq!(metrics.http_requests_total(), 0);
    assert_eq!(metrics.http_errors_total(), 0);
    assert_eq!(metrics.http_duration_total_ms(), 0);
}

#[test]
fn test_record_http_error() {
    let metrics = Metrics::new();
    metrics.record_http_error();
    assert_eq!(metrics.http_errors_total(), 1);
}

#[test]
fn test_record_contacts_fetched() {
    let metrics = Metrics::new();
    metrics.record_contacts_fetched(5);
    assert_eq!(metrics.contacts_fetched_total(), 5);
}

#[test]
fn test_reset() {
    let metrics = Metrics::new();
    metrics.record_http_request(100);
    metrics.record_http_error();
    metrics.record_contacts_fetched(5);

    assert_eq!(metrics.http_requests_total(), 1);
    assert_eq!(metrics.http_errors_total(), 1);
    assert_eq!(metrics.contacts_fetched_total(), 5);

    metrics.reset();

    assert_eq!(metrics.http_requests_total(), 0);
    assert_eq!(metrics.http_errors_total(), 0);
    assert_eq!(metrics.contacts_fetched_total(), 0);
}

#[test]
fn mod_test_summary() {
    let metrics = Metrics::new();
    metrics.record_http_request(100);
    metrics.record_http_error();
    metrics.record_contacts_fetched(3);

    let summary = metrics.summary();
    assert_eq!(summary.http_requests_total, 1);
    assert_eq!(summary.http_errors_total, 1);
    assert_eq!(summary.http_duration_total_ms, 100);
    assert_eq!(summary.contacts_fetched_total, 3);
}

#[test]
fn test_http_timer_with_error() {
    let metrics = Metrics::new();
    let timer = HttpTimer::new(metrics.clone());
    timer.complete_with_error();

    assert_eq!(metrics.http_requests_total(), 1);
    assert_eq!(metrics.http_errors_total(), 1);
}

#[test]
fn record_notes_and_reminders_fetched() {
    let metrics = Metrics::new();
    metrics.record_notes_fetched(4);
    metrics.record_reminders_fetched(6);
    assert_eq!(metrics.notes_fetched_total(), 4);
    assert_eq!(metrics.reminders_fetched_total(), 6);
}

#[test]
fn test_record_http_request() {
    let metrics = Metrics::new();
    metrics.record_http_request(100);
    assert_eq!(metrics.http_requests_total(), 1);
    assert_eq!(metrics.http_duration_total_ms(), 100);
}
