use dex_mcp_server::models::{Contact, Note, Reminder};
use dex_mcp_server::services::ReminderStatus;
use dex_mcp_server::tools::history::{apply_filters, filter_notes};
use dex_mcp_server::tools::{
    CreateNoteParams, CreateReminderParams, EnrichContactParams, FindContactParams,
    HistoryFilterParams, SearchParams, TimelineEntry,
};

#[test]
fn test_reminder_status_from_str() {
    assert_eq!(
        "active".parse::<ReminderStatus>().unwrap(),
        ReminderStatus::Active
    );
    assert_eq!(
        "completed".parse::<ReminderStatus>().unwrap(),
        ReminderStatus::Completed
    );
    assert_eq!(
        "all".parse::<ReminderStatus>().unwrap(),
        ReminderStatus::All
    );
    assert_eq!(
        "unknown".parse::<ReminderStatus>().unwrap(),
        ReminderStatus::All
    );
}

#[test]
fn test_find_contact_params_default() {
    let params = FindContactParams::default();
    assert_eq!(params.max_results, Some(5));
    assert_eq!(params.min_confidence, Some(30));
    assert!(params.name.is_none());
    assert!(params.email.is_none());
}

#[test]
fn test_enrich_contact_params_default() {
    let params = EnrichContactParams {
        contact_id: "test123".to_string(),
        ..Default::default()
    };
    assert_eq!(params.contact_id, "test123");
    assert!(params.first_name.is_none());
    assert!(params.email.is_none());
}

#[test]
fn test_create_note_params() {
    let params = CreateNoteParams {
        contact_id: "contact1".to_string(),
        content: "Test note".to_string(),
        tags: Some(vec!["meeting".to_string()]),
        source: Some("manual".to_string()),
    };
    assert_eq!(params.contact_id, "contact1");
    assert_eq!(params.content, "Test note");
    assert_eq!(params.tags.unwrap()[0], "meeting");
}

#[test]
fn test_create_reminder_params() {
    let params = CreateReminderParams {
        contact_id: "contact1".to_string(),
        text: "Follow up".to_string(),
        due_date: "2024-02-01T10:00:00Z".to_string(),
        tags: Some(vec!["important".to_string()]),
        priority: Some("high".to_string()),
    };
    assert_eq!(params.contact_id, "contact1");
    assert_eq!(params.text, "Follow up");
    assert_eq!(params.priority.unwrap(), "high");
}

#[test]
fn test_timeline_entry_timestamp() {
    let note = Note::new(
        "note1".to_string(),
        "contact1".to_string(),
        "Test note".to_string(),
        "2024-01-01T10:00:00Z".to_string(),
    );
    let entry = TimelineEntry::Note(note);
    assert_eq!(entry.timestamp(), "2024-01-01T10:00:00Z");
    assert_eq!(entry.entry_type(), "note");

    let reminder = Reminder::new(
        "rem1".to_string(),
        "contact1".to_string(),
        "Test reminder".to_string(),
        "2024-01-15T10:00:00Z".to_string(),
        "2024-01-02T10:00:00Z".to_string(),
    );
    let entry = TimelineEntry::Reminder(reminder);
    assert_eq!(entry.timestamp(), "2024-01-15T10:00:00Z");
    assert_eq!(entry.entry_type(), "reminder");
}

#[test]
fn test_history_filter_params_default() {
    let filter = HistoryFilterParams::default();
    assert!(filter.start_date.is_none());
    assert!(filter.end_date.is_none());
    assert!(filter.entry_types.is_none());
    assert!(filter.limit.is_none());
}

#[test]
fn test_search_params_default() {
    let params = SearchParams::default();
    assert_eq!(params.max_results, Some(10));
    assert_eq!(params.min_confidence, Some(50));
    assert_eq!(params.query, "");
}

#[test]
fn test_sample_contact() {
    let contact = sample_contact("Test", "User", "test@example.com");
    assert_eq!(contact.first_name, Some("Test".to_string()));
    assert_eq!(contact.last_name, Some("User".to_string()));
    assert_eq!(contact.emails, vec!["test@example.com".to_string()]);
}

#[test]
fn test_sample_contact_with_email() {
    let contact = sample_contact_with_email("Test User", "test@example.com");
    assert_eq!(contact.name, "Test User");
    assert_eq!(contact.email, Some("test@example.com".to_string()));
}

fn sample_contact(first_name: &str, last_name: &str, email: &str) -> Contact {
    Contact {
        first_name: Some(first_name.to_string()),
        last_name: Some(last_name.to_string()),
        emails: vec![email.to_string()],
        ..Default::default()
    }
}

fn sample_contact_with_email(name: &str, email: &str) -> Contact {
    let mut contact = Contact::new("".to_string(), name.to_string());
    contact.email = Some(email.to_string());
    contact
}

#[test]
fn timeline_filters_by_kind_and_range() {
    let entries = vec![
        TimelineEntry::Note(Note::new(
            "n1".to_string(),
            "c1".to_string(),
            "early".to_string(),
            "2024-01-01T00:00:00Z".to_string(),
        )),
        TimelineEntry::Reminder(Reminder::new(
            "r1".to_string(),
            "c1".to_string(),
            "due".to_string(),
            "2024-02-01T00:00:00Z".to_string(),
            "2024-01-05T00:00:00Z".to_string(),
        )),
        TimelineEntry::Note(Note::new(
            "n2".to_string(),
            "c1".to_string(),
            "late".to_string(),
            "2024-03-01T00:00:00Z".to_string(),
        )),
    ];
    let filter = HistoryFilterParams {
        start_date: Some("2024-01-02T00:00:00Z".to_string()),
        end_date: None,
        entry_types: Some(vec!["note".to_string()]),
        limit: None,
    };
    let filtered = apply_filters(entries, &filter);
    assert_eq!(filtered.len(), 1);
    assert_eq!(filtered[0].entry_type(), "note");
    assert_eq!(filtered[0].timestamp(), "2024-03-01T00:00:00Z");
}

#[test]
fn note_filter_applies_range_and_limit() {
    let notes = vec![
        Note::new("n1".into(), "c".into(), "a".into(), "2024-01-01".to_string()),
        Note::new("n2".into(), "c".into(), "b".into(), "2024-02-01".to_string()),
        Note::new("n3".into(), "c".into(), "c".into(), "2024-03-01".to_string()),
    ];
    let filter = HistoryFilterParams {
        start_date: Some("2024-01-15".to_string()),
        end_date: Some("2024-12-31".to_string()),
        entry_types: None,
        limit: Some(1),
    };
    let filtered = filter_notes(notes, &filter);
    assert_eq!(filtered.len(), 1);
    assert_eq!(filtered[0].id, "n2");
}
