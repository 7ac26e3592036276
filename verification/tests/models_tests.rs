use dex_mcp_server::models::{Contact, Note, Reminder, SocialProfile};
use dex_mcp_server::models::contact::{CreateContactRequest, UpdateContactRequest};
use dex_mcp_server::models::note::{CreateNoteRequest, UpdateNoteRequest};
use dex_mcp_server::models::reminder::{CreateReminderRequest, UpdateReminderRequest};

#[test]
fn test_contact_new() {
    let contact = Contact::new("123".to_string(), "John Doe".to_string());
    assert_eq!(contact.id, "123");
    assert_eq!(contact.name, "John Doe");
    assert!(contact.email.is_none());
}

#[test]
fn test_contact_all_emails() {
    let mut contact = Contact::new("123".to_string(), "John Doe".to_string());
    contact.email = Some("john@example.com".to_string());
    contact.emails = vec!["john.doe@work.com".to_string()];

    let all_emails = contact.all_emails();
    assert_eq!(all_emails.len(), 2);
    assert!(all_emails.contains(&"john@example.com".to_string()));
    assert!(all_emails.contains(&"john.doe@work.com".to_string()));
}

#[test]
fn test_contact_all_phones() {
    let mut contact = Contact::new("123".to_string(), "John Doe".to_string());
    contact.phone = Some("+1234567890".to_string());
    contact.phones = vec!["+0987654321".to_string()];

    let all_phones = contact.all_phones();
    assert_eq!(all_phones.len(), 2);
}

#[test]
fn test_social_profile() {
    let profile = SocialProfile::new(
        "twitter".to_string(),
        "https://twitter.com/johndoe".to_string(),
    );
    assert_eq!(profile.profile_type, "twitter");
    assert_eq!(profile.url, "https://twitter.com/johndoe");
}

#[test]
fn test_note_new() {
    let note = Note::new(
        "note123".to_string(),
        "contact123".to_string(),
        "Met for coffee".to_string(),
        "2024-01-15T10:00:00Z".to_string(),
    );
    assert_eq!(note.id, "note123");
    assert_eq!(note.contact_id, "contact123");
    assert_eq!(note.content, "Met for coffee");
}

#[test]
fn test_note_plain_text() {
    let note = Note::new(
        "note123".to_string(),
        "contact123".to_string(),
        "<p>This is <strong>bold</strong> text</p>".to_string(),
        "2024-01-15T10:00:00Z".to_string(),
    );
    let plain = note.plain_text();
    assert!(!plain.contains("<p>"));
    assert!(!plain.contains("<strong>"));
    assert!(plain.contains("This is"));
    assert!(plain.contains("bold"));
}

#[test]
fn test_reminder_new() {
    let reminder = Reminder::new(
        "reminder123".to_string(),
        "contact123".to_string(),
        "Follow up on proposal".to_string(),
        "2024-02-01T10:00:00Z".to_string(),
        "2024-01-15T10:00:00Z".to_string(),
    );
    assert_eq!(reminder.id, "reminder123");
    assert_eq!(reminder.contact_id, "contact123");
    assert_eq!(reminder.text, "Follow up on proposal");
    assert!(!reminder.completed);
}

#[test]
fn test_reminder_is_overdue() {
    let reminder = Reminder::new(
        "reminder123".to_string(),
        "contact123".to_string(),
        "Old reminder".to_string(),
        "2024-01-01T10:00:00Z".to_string(),
        "2023-12-15T10:00:00Z".to_string(),
    );

    assert!(reminder.is_overdue("2024-01-15T10:00:00Z"));
    assert!(!reminder.is_overdue("2023-12-20T10:00:00Z"));
}

#[test]
fn test_reminder_mark_completed() {
    let mut reminder = Reminder::new(
        "reminder123".to_string(),
        "contact123".to_string(),
        "Task".to_string(),
        "2024-02-01T10:00:00Z".to_string(),
        "2024-01-15T10:00:00Z".to_string(),
    );

    assert!(!reminder.completed);
    assert!(reminder.completed_at.is_none());

    reminder.mark_completed("2024-01-20T15:30:00Z".to_string());

    assert!(reminder.completed);
    assert_eq!(
        reminder.completed_at,
        Some("2024-01-20T15:30:00Z".to_string())
    );

    assert!(!reminder.is_overdue("2024-02-15T10:00:00Z"));
}

#[test]
fn populate_computed_fields_builds_the_name() {
    let mut contact = Contact::new("1".to_string(), String::new());
    contact.first_name = Some("John".to_string());
    contact.last_name = Some("Doe".to_string());
    contact.emails = vec!["john@example.com".to_string()];
    contact.populate_computed_fields();
    assert_eq!(contact.name, "John Doe");
    assert_eq!(contact.email, Some("john@example.com".to_string()));
}

#[test]
fn create_contact_request_carries_fields() {
    let mut contact = Contact::new("1".to_string(), "John Doe".to_string());
    contact.first_name = Some("John".to_string());
    contact.emails = vec!["a@b.co".to_string()];
    let req = CreateContactRequest::from(&contact);
    assert_eq!(req.contact.first_name, Some("John".to_string()));
    let emails = req.contact.contact_emails.unwrap();
    assert_eq!(emails.data.len(), 1);
    assert_eq!(emails.data[0].email, "a@b.co");
    assert!(req.contact.contact_phone_numbers.is_none());
}

#[test]
fn update_contact_request_sets_flags() {
    let mut contact = Contact::new("1".to_string(), "John Doe".to_string());
    contact.phones = vec!["+1 555".to_string()];
    let req = UpdateContactRequest::from_contact(&contact, "cid");
    assert!(req.update_contact_phone_numbers);
    assert!(!req.update_contact_emails);
    let phones = req.contact_phone_numbers.unwrap();
    assert_eq!(phones[0].contact_id, "cid");
    assert_eq!(phones[0].phone_number, "+1 555");
}

#[test]
fn note_requests_carry_content() {
    let note = Note::new(
        String::new(),
        "c1".to_string(),
        "Reach out".to_string(),
        String::new(),
    );
    let create = CreateNoteRequest::from(&note);
    assert_eq!(create.timeline_event.note, "Reach out");
    assert_eq!(create.timeline_event.meeting_type, "note");
    assert_eq!(create.timeline_event.timeline_items_contacts.data.len(), 1);
    assert_eq!(
        create.timeline_event.timeline_items_contacts.data[0].contact_id,
        "c1"
    );
    // the note carried no timestamp, so the request was stamped
    assert!(!create.timeline_event.event_time.is_empty());
    let update = UpdateNoteRequest::from(&note);
    assert_eq!(update.changes.note, Some("Reach out".to_string()));
    assert!(update.changes.event_time.is_none());
}

#[test]
fn reminder_requests_carry_fields() {
    let reminder = Reminder::new(
        String::new(),
        "c1".to_string(),
        "Call back".to_string(),
        "2025-10-22".to_string(),
        String::new(),
    );
    let create = CreateReminderRequest::from(&reminder);
    assert_eq!(create.reminder.text, "Call back");
    assert_eq!(create.reminder.due_at_date, "2025-10-22");
    assert!(create.reminder.title.is_none());
    assert!(create.reminder.is_complete.is_none());
    assert_eq!(create.reminder.reminders_contacts.data[0].contact_id, "c1");
    let update = UpdateReminderRequest::from(&reminder);
    assert_eq!(update.changes.is_complete, Some(false));
    assert_eq!(update.changes.due_at_date, Some("2025-10-22".to_string()));
}
