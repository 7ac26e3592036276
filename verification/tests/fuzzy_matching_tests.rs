use dex_mcp_server::matching::fuzzy_matcher::{ContactMatcher, ContactQuery, MatchType};
use dex_mcp_server::models::{Contact, SocialProfile};

fn create_test_contact(name: &str, email: Option<&str>, phone: Option<&str>) -> Contact {
    let mut contact = Contact::new("test-id".to_string(), name.to_string());
    contact.email = email.map(|e| e.to_string());
    contact.phone = phone.map(|p| p.to_string());
    contact
}

fn empty_query() -> ContactQuery {
    ContactQuery { name: None, email: None, phone: None, company: None, social_url: None }
}

#[test]
fn test_normalize_email() {
    assert_eq!(
        ContactMatcher::normalize_email("  Test@Example.COM  "),
        "test@example.com"
    );
    assert_eq!(
        ContactMatcher::normalize_email("user@domain.com"),
        "user@domain.com"
    );
}

#[test]
fn test_normalize_phone() {
    assert_eq!(
        ContactMatcher::normalize_phone("+1 (555) 123-4567"),
        "5551234567"
    );
    assert_eq!(
        ContactMatcher::normalize_phone("555-123-4567"),
        "5551234567"
    );
    assert_eq!(
        ContactMatcher::normalize_phone("+44 20 7123 4567"),
        "2071234567"
    );
}

#[test]
fn test_normalize_url() {
    assert_eq!(
        ContactMatcher::normalize_url("https://twitter.com/username/"),
        "twitter.com/username"
    );
    assert_eq!(
        ContactMatcher::normalize_url("HTTP://WWW.LINKEDIN.COM/in/user"),
        "linkedin.com/in/user"
    );
}

#[test]
fn test_normalize_name() {
    assert_eq!(ContactMatcher::normalize_name("  John   Doe  "), "john doe");
    assert_eq!(ContactMatcher::normalize_name("JANE SMITH"), "jane smith");
}

#[test]
fn test_exact_email_match() {
    let matcher = ContactMatcher::new();
    let contact = create_test_contact("John Doe", Some("john@example.com"), None);

    assert_eq!(matcher.match_email("john@example.com", &contact), Some(100));
    assert_eq!(matcher.match_email("JOHN@EXAMPLE.COM", &contact), Some(100));
    assert_eq!(matcher.match_email("jane@example.com", &contact), None);
}

#[test]
fn test_exact_phone_match() {
    let matcher = ContactMatcher::new();
    let contact = create_test_contact("John Doe", None, Some("+1 (555) 123-4567"));

    assert_eq!(matcher.match_phone("555-123-4567", &contact), Some(100));
    assert_eq!(matcher.match_phone("+1 555 123 4567", &contact), Some(100));
    assert_eq!(matcher.match_phone("555-999-8888", &contact), None);
}

#[test]
fn test_fuzzy_name_match() {
    let matcher = ContactMatcher::new();

    let score = matcher.fuzzy_match_name("john doe", "John Doe");
    assert!(score.is_some());
    assert!(score.unwrap() >= 85);

    let score = matcher.fuzzy_match_name("john", "John Doe");
    assert!(score.is_some());
    assert!(score.unwrap() >= 50);

    let score = matcher.fuzzy_match_name("johnn doe", "John Doe");
    assert!(score.is_some());

    let _score = matcher.fuzzy_match_name("alice", "John Doe");
}

#[test]
fn test_find_matches_by_email() {
    let mut matcher = ContactMatcher::new();
    let contacts = vec![
        create_test_contact("John Doe", Some("john@example.com"), None),
        create_test_contact("Jane Smith", Some("jane@example.com"), None),
    ];

    let query = ContactQuery {
        email: Some("john@example.com".to_string()),
        ..empty_query()
    };

    let results = matcher.find_matches(&query, &contacts, 5, 0);

    assert_eq!(results.len(), 1);
    assert_eq!(results[0].contact.name, "John Doe");
    assert_eq!(results[0].confidence, 100);
    assert_eq!(results[0].match_type, MatchType::ExactEmail);
}

#[test]
fn test_find_matches_by_name() {
    let mut matcher = ContactMatcher::new();
    let contacts = vec![
        create_test_contact("John Doe", None, None),
        create_test_contact("Jane Doe", None, None),
        create_test_contact("Alice Smith", None, None),
    ];

    let query = ContactQuery {
        name: Some("doe".to_string()),
        ..empty_query()
    };

    let results = matcher.find_matches(&query, &contacts, 5, 30);

    assert!(results.len() >= 2);
    assert!(results.iter().any(|r| r.contact.name.contains("Doe")));
}

#[test]
fn test_match_result_sorting() {
    let mut matcher = ContactMatcher::new();
    let contacts = vec![
        create_test_contact("John Doe", Some("john@example.com"), None),
        create_test_contact("John Smith", None, None),
        create_test_contact("Jane Doe", None, None),
    ];

    let query = ContactQuery {
        name: Some("john".to_string()),
        email: Some("john@example.com".to_string()),
        ..empty_query()
    };

    let results = matcher.find_matches(&query, &contacts, 5, 0);

    assert!(!results.is_empty());
    assert_eq!(
        results[0].contact.email,
        Some("john@example.com".to_string())
    );
    assert_eq!(results[0].confidence, 100);
}

#[test]
fn fuzzy_matcher_test_confidence_threshold() {
    let mut matcher = ContactMatcher::new();
    let contacts = vec![
        create_test_contact("John Doe", None, None),
        create_test_contact("Alice Smith", None, None),
    ];

    let query = ContactQuery {
        name: Some("john".to_string()),
        ..empty_query()
    };

    let results = matcher.find_matches(&query, &contacts, 5, 0);
    let count_low = results.len();

    let results = matcher.find_matches(&query, &contacts, 5, 90);
    let count_high = results.len();

    assert!(count_high <= count_low);
}

#[test]
fn fuzzy_matcher_test_max_results_limit() {
    let mut matcher = ContactMatcher::new();
    let contacts = vec![
        create_test_contact("John Doe", None, None),
        create_test_contact("John Smith", None, None),
        create_test_contact("Johnny Walker", None, None),
        create_test_contact("Jonathan Lee", None, None),
    ];

    let query = ContactQuery {
        name: Some("john".to_string()),
        ..empty_query()
    };

    let results = matcher.find_matches(&query, &contacts, 2, 0);

    assert!(results.len() <= 2);
}

#[test]
fn test_social_url_match() {
    let mut matcher = ContactMatcher::new();
    let mut contact = create_test_contact("John Doe", None, None);
    contact.social_profiles = vec![SocialProfile::new(
        "twitter".to_string(),
        "https://twitter.com/johndoe".to_string(),
    )];

    let query = ContactQuery {
        social_url: Some("twitter.com/johndoe".to_string()),
        ..empty_query()
    };

    let results = matcher.find_matches(&query, &vec![contact], 5, 0);

    assert_eq!(results.len(), 1);
    assert_eq!(results[0].confidence, 100);
    assert_eq!(results[0].match_type, MatchType::ExactSocial);
}

#[test]
fn normalization_is_idempotent_on_examples() {
    let e = ContactMatcher::normalize_email("  MiXeD@Case.Org ");
    assert_eq!(ContactMatcher::normalize_email(&e), e);
    let p = ContactMatcher::normalize_phone("+1 (555) 123-4567");
    assert_eq!(ContactMatcher::normalize_phone(&p), p);
    let u = ContactMatcher::normalize_url("HTTPS://www.Example.com/a/");
    assert_eq!(ContactMatcher::normalize_url(&u), u);
    let n = ContactMatcher::normalize_name("  Ada   LOVELACE ");
    assert_eq!(ContactMatcher::normalize_name(&n), n);
}

#[test]
fn fuzzy_score_never_exceeds_ninety_five() {
    assert_eq!(ContactMatcher::calculate_fuzzy_score("john doe", "john doe"), 95);
    assert!(ContactMatcher::calculate_fuzzy_score("john", "john doe") <= 95);
    assert!(ContactMatcher::calculate_fuzzy_score("jahn", "john") <= 95);
    assert_eq!(ContactMatcher::calculate_fuzzy_score("", "john") , 0);
}

#[test]
fn exact_email_outranks_fuzzy_name() {
    // a query naming both an email and a name: the exact email match comes
    // first with confidence exactly one hundred
    let mut matcher = ContactMatcher::new();
    let contacts = vec![
        create_test_contact("John Doe", None, None),
        create_test_contact("Johnny Mail", Some("j@example.com"), None),
    ];
    let query = ContactQuery {
        name: Some("john".to_string()),
        email: Some("j@example.com".to_string()),
        ..empty_query()
    };
    let results = matcher.find_matches(&query, &contacts, 5, 0);
    assert_eq!(results[0].confidence, 100);
    assert_eq!(results[0].match_type, MatchType::ExactEmail);
    for r in &results[1..] {
        assert!(r.confidence <= results[0].confidence);
    }
}

#[test]
fn substring_name_query_scores_by_coverage() {
    // "john" inside "john doe": eight characters against four give
    // 85 * 4 / 8 + 10 = 52 (integer division)
    assert_eq!(ContactMatcher::calculate_fuzzy_score("john", "john doe"), 52);
}

#[test]
fn company_boost_is_capped() {
    let mut matcher = ContactMatcher::new();
    let mut contact = create_test_contact("John Doe", None, None);
    contact.company = Some("Acme".to_string());
    let query = ContactQuery {
        name: Some("john doe".to_string()),
        company: Some("Acme".to_string()),
        ..empty_query()
    };
    let results = matcher.find_matches(&query, &vec![contact], 5, 0);
    // exact name gives 95; the company boost cannot push past 95
    assert_eq!(results[0].confidence, 95);
}

#[test]
fn normalization_folds_beyond_ascii() {
    // lowercasing goes through the real Unicode case folding
    assert_eq!(
        ContactMatcher::normalize_email("JOS\u{c9}@Example.com"),
        "jos\u{e9}@example.com"
    );
    assert_eq!(
        ContactMatcher::normalize_name("  \u{c9}LAN   Vital "),
        "\u{e9}lan vital"
    );
    assert_eq!(
        ContactMatcher::normalize_url("HTTPS://\u{c9}cole.example/"),
        "\u{e9}cole.example"
    );
}

#[test]
fn exact_email_match_folds_unicode_case() {
    let matcher = ContactMatcher::new();
    let contact = create_test_contact("Jos\u{e9}", Some("jos\u{e9}@example.com"), None);
    assert_eq!(
        matcher.match_email("JOS\u{c9}@EXAMPLE.COM", &contact),
        Some(100)
    );
}
