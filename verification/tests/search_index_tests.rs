use dex_mcp_server::search::full_text_index::MAX_SNIPPET_LENGTH;
use dex_mcp_server::search::{strip_html, FullTextSearchIndex, SearchableField};
use dex_mcp_server::levenshtein_distance;
use dex_mcp_server::models::{Contact, Note, Reminder};

fn create_test_contact(id: &str, name: &str) -> Contact {
    Contact::new(id.to_string(), name.to_string())
}

#[test]
fn test_strip_html() {
    assert_eq!(strip_html("<p>Hello world</p>"), "Hello world");
    assert_eq!(
        strip_html("<div>Hello <strong>world</strong></div>"),
        "Hello world"
    );
    assert_eq!(strip_html("No HTML here"), "No HTML here");
    assert_eq!(
        strip_html("<p>  Multiple   spaces  </p>"),
        "Multiple spaces"
    );
}

#[test]
fn test_searchable_field_display_name() {
    assert_eq!(SearchableField::Name.display_name(), "name");
    assert_eq!(SearchableField::Email.display_name(), "email");
    assert_eq!(SearchableField::Note.display_name(), "note");
}

#[test]
fn test_index_contact_basic() {
    let mut index = FullTextSearchIndex::new();
    let mut contact = create_test_contact("1", "John Doe");
    contact.email = Some("john@example.com".to_string());
    contact.company = Some("Acme Corp".to_string());

    index.index_contact(&contact, &Vec::new(), &Vec::new());

    assert_eq!(index.document_count(), 3);
}

#[test]
fn test_index_contact_with_notes() {
    let mut index = FullTextSearchIndex::new();
    let contact = create_test_contact("1", "John Doe");
    let notes = vec![Note {
        id: "note1".to_string(),
        contact_id: "1".to_string(),
        content: "<p>Meeting notes</p>".to_string(),
        created_at: "2024-01-01T00:00:00Z".to_string(),
        updated_at: Some("2024-01-01T00:00:00Z".to_string()),
        tags: Vec::new(),
        source: None,
    }];

    index.index_contact(&contact, &notes, &Vec::new());

    assert_eq!(index.document_count(), 2);
}

#[test]
fn test_index_contact_with_reminders() {
    let mut index = FullTextSearchIndex::new();
    let contact = create_test_contact("1", "John Doe");
    let reminders = vec![Reminder {
        id: "rem1".to_string(),
        contact_id: "1".to_string(),
        text: "Follow up next week".to_string(),
        due_date: "2024-01-15".to_string(),
        completed: false,
        completed_at: None,
        created_at: "2024-01-01T00:00:00Z".to_string(),
        updated_at: Some("2024-01-01T00:00:00Z".to_string()),
        tags: Vec::new(),
        priority: None,
    }];

    index.index_contact(&contact, &Vec::new(), &reminders);

    assert_eq!(index.document_count(), 2);
}

#[test]
fn test_search_exact_match() {
    let mut index = FullTextSearchIndex::new();
    let mut contact = create_test_contact("1", "John Doe");
    contact.email = Some("john@example.com".to_string());

    let contacts = vec![contact.clone()];
    index.index_contact(&contact, &Vec::new(), &Vec::new());

    let results = index.search(&contacts, "john", 10, 0);

    assert_eq!(results.len(), 1);
    assert_eq!(results[0].contact.id, "1");
    assert!(results[0].confidence > 0);
    assert!(!results[0].matches.is_empty());
}

#[test]
fn test_search_in_notes() {
    let mut index = FullTextSearchIndex::new();
    let contact = create_test_contact("1", "John Doe");
    let notes = vec![Note {
        id: "note1".to_string(),
        contact_id: "1".to_string(),
        content: "Discussed the project timeline".to_string(),
        created_at: "2024-01-01T00:00:00Z".to_string(),
        updated_at: Some("2024-01-01T00:00:00Z".to_string()),
        tags: Vec::new(),
        source: None,
    }];

    let contacts = vec![contact.clone()];
    index.index_contact(&contact, &notes, &Vec::new());

    let results = index.search(&contacts, "timeline", 10, 0);

    assert_eq!(results.len(), 1);
    assert_eq!(results[0].matches.len(), 1);
    assert_eq!(results[0].matches[0].field_type, SearchableField::Note);
}

#[test]
fn test_search_multiple_matches_boost() {
    let mut index = FullTextSearchIndex::new();
    let mut contact = create_test_contact("1", "John Smith");
    contact.company = Some("John's Company".to_string());

    let contacts = vec![contact.clone()];
    index.index_contact(&contact, &Vec::new(), &Vec::new());

    let results = index.search(&contacts, "john", 10, 0);

    assert_eq!(results.len(), 1);
    assert!(results[0].matches.len() >= 2);
    assert!(
        results[0].confidence >= 45,
        "Expected confidence >= 45, got {}",
        results[0].confidence
    );
}

#[test]
fn test_search_confidence_threshold() {
    let mut index = FullTextSearchIndex::new();
    let contact = create_test_contact("1", "John Doe");

    let contacts = vec![contact.clone()];
    index.index_contact(&contact, &Vec::new(), &Vec::new());

    let results_high = index.search(&contacts, "jon", 10, 90);
    let results_low = index.search(&contacts, "jon", 10, 0);

    assert!(results_low.len() >= results_high.len());
}

#[test]
fn test_search_max_results() {
    let mut index = FullTextSearchIndex::new();

    let contacts: Vec<Contact> = (0..10)
        .map(|i| create_test_contact(&i.to_string(), &format!("Contact {}", i)))
        .collect();

    for contact in &contacts {
        index.index_contact(contact, &Vec::new(), &Vec::new());
    }

    let results = index.search(&contacts, "contact", 3, 0);

    assert!(results.len() <= 3);
}

#[test]
fn test_snippet_generation() {
    let index = FullTextSearchIndex::new();
    let original =
        "This is a long text with many words to test snippet generation functionality";
    let snippet = index.generate_snippet(original, &original.to_lowercase(), "snippet");

    assert!(snippet.contains("snippet"));
    assert!(snippet.len() <= MAX_SNIPPET_LENGTH);
}

#[test]
fn test_snippet_with_ellipsis() {
    let index = FullTextSearchIndex::new();
    let original = "Start of text. This is the middle section with the important keyword that we are searching for. End of text with more content.";
    let snippet = index.generate_snippet(original, &original.to_lowercase(), "keyword");

    assert!(snippet.contains("keyword"));
    assert!(snippet.contains("..."));
}

#[test]
fn test_clear_index() {
    let mut index = FullTextSearchIndex::new();
    let contact = create_test_contact("1", "John Doe");

    index.index_contact(&contact, &Vec::new(), &Vec::new());
    assert!(index.document_count() > 0);

    index.clear();
    assert_eq!(index.document_count(), 0);
}

#[test]
fn test_fuzzy_word_matching() {
    let mut index = FullTextSearchIndex::new();
    let mut contact = create_test_contact("1", "John Doe");
    contact.company = Some("Software Engineering Company".to_string());

    let contacts = vec![contact.clone()];
    index.index_contact(&contact, &Vec::new(), &Vec::new());

    let results = index.search(&contacts, "sofware", 10, 0);

    assert!(!results.is_empty());
}

#[test]
fn test_levenshtein_distance() {
    assert_eq!(levenshtein_distance("kitten", "sitting"), 3);
    assert_eq!(levenshtein_distance("saturday", "sunday"), 3);
    assert_eq!(levenshtein_distance("", "test"), 4);
    assert_eq!(levenshtein_distance("test", ""), 4);
    assert_eq!(levenshtein_distance("same", "same"), 0);
}

#[test]
fn snippet_keeps_the_matched_span() {
    // the match sits deep inside long content: stripping the ellipses must
    // leave the matched span intact
    let index = FullTextSearchIndex::new();
    let mut original = String::new();
    for _ in 0..12 {
        original.push_str("aaaa bbbb cccc dddd ");
    }
    original.push_str("needle");
    for _ in 0..12 {
        original.push_str(" eeee ffff gggg hhhh");
    }
    let snippet = index.generate_snippet(&original, &original.to_lowercase(), "needle");
    let stripped = snippet.trim_matches('.');
    assert!(stripped.contains("needle"));
    assert!(snippet.starts_with("..."));
    assert!(snippet.ends_with("..."));
}

#[test]
fn note_search_returns_plain_text_snippet() {
    // an HTML note is indexed as plain text: the match reports a note field
    // and its snippet carries no tags
    let mut index = FullTextSearchIndex::new();
    let contact = create_test_contact("1", "John Doe");
    let notes = vec![Note {
        id: "note1".to_string(),
        contact_id: "1".to_string(),
        content: "<p>Discussed the project timeline</p>".to_string(),
        created_at: "2024-01-01T00:00:00Z".to_string(),
        updated_at: None,
        tags: Vec::new(),
        source: None,
    }];
    let contacts = vec![contact.clone()];
    index.index_contact(&contact, &notes, &Vec::new());
    let results = index.search(&contacts, "timeline", 10, 0);
    assert_eq!(results.len(), 1);
    let m = &results[0].matches[0];
    assert_eq!(m.field_type, SearchableField::Note);
    assert!(m.snippet.contains("timeline"));
    assert!(!m.snippet.contains("<"));
    assert!(!m.snippet.contains(">"));
    assert_eq!(m.item_id, Some("note1".to_string()));
}

#[test]
fn overall_confidence_is_bounded_by_best_plus_boost() {
    let mut index = FullTextSearchIndex::new();
    let mut contact = create_test_contact("1", "John Smith");
    contact.company = Some("John's Company".to_string());
    contact.title = Some("John of all trades".to_string());
    let contacts = vec![contact.clone()];
    index.index_contact(&contact, &Vec::new(), &Vec::new());
    let results = index.search(&contacts, "john", 10, 0);
    assert_eq!(results.len(), 1);
    let best = results[0].matches.iter().map(|m| m.confidence).max().unwrap();
    assert!(results[0].confidence as u32 <= (best as u32 + 15).min(100));
    assert!(results[0].confidence <= 100);
}

#[test]
fn threshold_never_adds_results() {
    let mut index = FullTextSearchIndex::new();
    let contacts: Vec<Contact> = vec![
        create_test_contact("1", "John Doe"),
        create_test_contact("2", "Jon Doh"),
        create_test_contact("3", "Johnny"),
    ];
    for c in &contacts {
        index.index_contact(c, &Vec::new(), &Vec::new());
    }
    let mut last = usize::MAX;
    for minc in [0u8, 30, 50, 70, 90] {
        let n = index.search(&contacts, "john", 10, minc).len();
        assert!(n <= last);
        last = n;
    }
}

#[test]
fn unknown_contact_ids_are_dropped() {
    // the snapshot handed to search lacks the indexed contact: the match is
    // silently dropped rather than failing
    let mut index = FullTextSearchIndex::new();
    let contact = create_test_contact("1", "John Doe");
    index.index_contact(&contact, &Vec::new(), &Vec::new());
    let other_snapshot = vec![create_test_contact("2", "Jane Roe")];
    let results = index.search(&other_snapshot, "john", 10, 0);
    assert!(results.is_empty());
}

#[test]
fn fuzzy_name_query_scores_example() {
    // "john" against "John Doe": the email is not queried here, so the name
    // matches as a substring at 85 * 4 / 8 + 10 = 52
    let mut index = FullTextSearchIndex::new();
    let mut contact = create_test_contact("1", "John Doe");
    contact.email = Some("john@example.com".to_string());
    let contacts = vec![contact.clone()];
    index.index_contact(&contact, &Vec::new(), &Vec::new());
    let results = index.search(&contacts, "john", 10, 0);
    assert_eq!(results.len(), 1);
    let name_match = results[0]
        .matches
        .iter()
        .find(|m| m.field_type == SearchableField::Name)
        .unwrap();
    assert_eq!(name_match.confidence, 52);
}

#[test]
fn multi_match_boost_exact_value() {
    // name "John Smith": 85 * 4 / 10 + 10 = 44; company "John's Company":
    // 85 * 4 / 14 + 10 = 34; overall = 44 + 5 for the one extra match = 49
    let mut index = FullTextSearchIndex::new();
    let mut contact = create_test_contact("1", "John Smith");
    contact.company = Some("John's Company".to_string());
    let contacts = vec![contact.clone()];
    index.index_contact(&contact, &Vec::new(), &Vec::new());
    let results = index.search(&contacts, "john", 10, 0);
    assert_eq!(results[0].matches.len(), 2);
    assert_eq!(results[0].confidence, 49);
}

#[test]
fn boost_is_capped_at_fifteen() {
    // six matching fields: the boost stops at fifteen over the best match
    let mut index = FullTextSearchIndex::new();
    let mut contact = create_test_contact("1", "ax ax ax ax ax ax ax ax");
    contact.email = Some("ax@ax.ax".to_string());
    contact.phone = Some("123".to_string());
    contact.phones = vec!["ax 456".to_string()];
    contact.company = Some("ax co".to_string());
    contact.title = Some("ax chief".to_string());
    let contacts = vec![contact.clone()];
    index.index_contact(&contact, &Vec::new(), &Vec::new());
    let results = index.search(&contacts, "ax", 10, 0);
    let best = results[0].matches.iter().map(|m| m.confidence).max().unwrap();
    assert!(results[0].matches.len() > 4);
    assert_eq!(
        results[0].confidence as u32,
        ((best as u32) + 15).min(100)
    );
}
