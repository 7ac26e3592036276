use dex_mcp_server::error::{api_error_from_status, DexApiError};
use dex_mcp_server::models::{Contact, Note, Reminder};
use dex_mcp_server::services::{
    validate_contact_id, validate_date_format, validate_note_content, validate_reminder_text,
    validate_search_query,
};
use dex_mcp_server::matching::fuzzy_matcher::MatchType;
use dex_mcp_server::tools::search::next_page_offset;
use dex_mcp_server::{DiscoveryEngine, FindContactParams, SearchEngine};

fn contact(id: &str, name: &str) -> Contact {
    Contact::new(id.to_string(), name.to_string())
}

fn note(id: &str, cid: &str, content: &str) -> Note {
    Note::new(
        id.to_string(),
        cid.to_string(),
        content.to_string(),
        "2024-01-01T00:00:00Z".to_string(),
    )
}

#[test]
fn search_engine_misses_then_hits() {
    let mut engine = SearchEngine::new(60_000);
    // nothing cached yet: the caller must fetch and build
    assert!(engine.try_cached_search("john", 10, 0, 0).is_none());

    let records = vec![
        (contact("1", "John Doe"), Vec::new(), Vec::<Reminder>::new()),
        (contact("2", "Jane Roe"), vec![note("n1", "2", "met john yesterday")], Vec::new()),
    ];
    let built = engine.install_and_search(records, "john", 10, 0, 0);
    assert!(!built.from_cache);
    assert_eq!(built.index_size, 3);
    assert_eq!(built.results.len(), 2);

    // within the time to live the cache answers, marked as such
    let cached = engine.try_cached_search("john", 10, 0, 30_000).unwrap();
    assert!(cached.from_cache);
    assert_eq!(cached.index_size, 3);
    assert_eq!(cached.results.len(), 2);

    // past the time to live the cache is silent again
    assert!(engine.try_cached_search("john", 10, 0, 60_000).is_none());
}

#[test]
fn invalidation_forces_a_rebuild_with_fresh_data() {
    let mut engine = SearchEngine::new(60_000);
    let before = vec![(contact("1", "John Doe"), Vec::new(), Vec::new())];
    let first = engine.install_and_search(before, "john", 10, 0, 0);
    assert!(!first.from_cache);
    assert_eq!(first.results.len(), 1);

    // a mutation elsewhere invalidates; the very next read misses
    engine.invalidate_cache();
    assert!(engine.try_cached_search("john", 10, 0, 1).is_none());

    // the rebuild sees the mutated dataset
    let after = vec![
        (contact("1", "John Doe"), Vec::new(), Vec::new()),
        (contact("2", "Johnny New"), Vec::new(), Vec::new()),
    ];
    let second = engine.install_and_search(after, "john", 10, 0, 1);
    assert!(!second.from_cache);
    assert_eq!(second.results.len(), 2);
}

#[test]
fn discovery_engine_caches_contacts() {
    let mut engine = DiscoveryEngine::new(60_000);
    let params = FindContactParams {
        name: Some("john".to_string()),
        ..Default::default()
    };
    assert!(engine.find_contact_cached(&params, 0).is_none());
    engine.install_contacts(vec![contact("1", "John Doe")], 0);
    assert!(engine.has_cached_contacts(10));
    let resp = engine.find_contact_cached(&params, 10).unwrap();
    assert!(resp.from_cache);
    assert_eq!(resp.matches.len(), 1);
    engine.invalidate_cache();
    assert!(!engine.has_cached_contacts(10));
}

#[test]
fn email_lookup_maps_to_exact_matches() {
    let found = vec![contact("1", "John Doe")];
    let resp = DiscoveryEngine::matches_from_email_lookup(found);
    assert!(!resp.from_cache);
    assert_eq!(resp.matches.len(), 1);
    assert_eq!(resp.matches[0].confidence, 100);
    assert_eq!(resp.matches[0].match_type, MatchType::ExactEmail);
}

#[test]
fn paged_fetch_stops_on_a_short_page() {
    assert_eq!(next_page_offset(100, 100, 0), Some(100));
    assert_eq!(next_page_offset(100, 100, 100), Some(200));
    assert_eq!(next_page_offset(99, 100, 200), None);
    assert_eq!(next_page_offset(0, 100, 0), None);
}

#[test]
fn api_errors_classify_by_status() {
    assert!(matches!(
        api_error_from_status(429, String::new()),
        DexApiError::RateLimitExceeded
    ));
    assert!(matches!(
        api_error_from_status(401, String::new()),
        DexApiError::Unauthorized
    ));
    assert!(matches!(
        api_error_from_status(403, String::new()),
        DexApiError::Unauthorized
    ));
    match api_error_from_status(404, "contact".to_string()) {
        DexApiError::NotFound(m) => assert_eq!(m, "contact"),
        _ => panic!("a missing resource should map to its own failure"),
    }
    match api_error_from_status(500, "boom".to_string()) {
        DexApiError::ApiError { status, message } => {
            assert_eq!(status, 500);
            assert_eq!(message, "boom");
        }
        _ => panic!("other statuses should keep their code and body"),
    }
}

#[test]
fn validators_accept_and_reject() {
    assert!(validate_search_query("john").is_ok());
    assert!(validate_search_query("   ").is_err());
    assert!(validate_search_query(&"x".repeat(501)).is_err());
    assert!(validate_contact_id("c1").is_ok());
    assert!(validate_contact_id("").is_err());
    assert!(validate_note_content("hello").is_ok());
    assert!(validate_note_content(" ").is_err());
    assert!(validate_reminder_text("call").is_ok());
    assert!(validate_reminder_text("").is_err());
    assert!(validate_date_format("2024-01-15").is_ok());
    assert!(validate_date_format("2024").is_err());
}

#[test]
fn empty_reminders_and_blank_notes_are_not_indexed() {
    let mut engine = SearchEngine::new(60_000);
    let mut reminder = Reminder::new(
        "r1".to_string(),
        "1".to_string(),
        "   ".to_string(),
        "2024-01-15".to_string(),
        String::new(),
    );
    reminder.text = "   ".to_string();
    let records = vec![(
        contact("1", "John Doe"),
        vec![note("n1", "1", "<p>   </p>")],
        vec![reminder],
    )];
    let built = engine.install_and_search(records, "john", 10, 0, 0);
    // only the name document: the blank note and reminder contribute nothing
    assert_eq!(built.index_size, 1);
}
