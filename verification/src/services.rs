//! Input validation at the service boundary, and the reminder status filter.

use vstd::prelude::*;
use vstd::string::StrSliceExecFns;
use std::str::FromStr;
use crate::text;
use crate::text::{lower_of, trim_of};

verus! {

/// Status filter for reminders.
#[derive(Debug, Clone, Copy, PartialEq, Eq, Structural)]
pub enum ReminderStatus {
    /// Only reminders not yet completed
    Active,
    /// Only completed reminders
    Completed,
    /// Every reminder
    All,
}

/// What a status word means: "active" and "completed" name their statuses,
/// case insensitively; anything else means every reminder.
pub open spec fn status_of_word(s: Seq<char>) -> ReminderStatus {
    if lower_of(s) == "active"@ {
        ReminderStatus::Active
    } else if lower_of(s) == "completed"@ {
        ReminderStatus::Completed
    } else {
        ReminderStatus::All
    }
}

impl FromStr for ReminderStatus {
    type Err = String;

    fn from_str(s: &str) -> Result<ReminderStatus, String> {
        Ok(ReminderStatus::parse_word(s))
    }
}

impl ReminderStatus {
    /// Read a status word; an unknown word means every reminder.
    pub fn parse_word(s: &str) -> (r: ReminderStatus)
        ensures
            r == status_of_word(s@),
    {
        let lowered_str = text::to_lowercase(s);
        let lowered = text::chars_of(lowered_str.as_str());
        let active = text::chars_of("active");
        let completed = text::chars_of("completed");
        proof {
            reveal_strlit("active");
            reveal_strlit("completed");
        }
        if text::chars_eq(&lowered, &active) {
            ReminderStatus::Active
        } else if text::chars_eq(&lowered, &completed) {
            ReminderStatus::Completed
        } else {
            ReminderStatus::All
        }
    }
}

/// Reject a blank search query, or one longer than five hundred characters.
pub fn validate_search_query(query: &str) -> (r: Result<(), String>)
    ensures
        r is Ok <==> trim_of(query@).len() > 0 && query@.len() <= 500,
{
    let chars = text::chars_of(query);
    let trimmed = text::trim_str(query);
    if trimmed.unicode_len() == 0 {
        return Err(text::str_to_string("Search query cannot be empty"));
    }
    if chars.len() > 500 {
        return Err(text::str_to_string("Search query too long (max 500 characters)"));
    }
    Ok(())
}

/// Reject a blank contact id, or one longer than a hundred characters.
pub fn validate_contact_id(contact_id: &str) -> (r: Result<(), String>)
    ensures
        r is Ok <==> trim_of(contact_id@).len() > 0 && contact_id@.len() <= 100,
{
    let chars = text::chars_of(contact_id);
    let trimmed = text::trim_str(contact_id);
    if trimmed.unicode_len() == 0 {
        return Err(text::str_to_string("Contact ID cannot be empty"));
    }
    if chars.len() > 100 {
        return Err(text::str_to_string("Contact ID too long"));
    }
    Ok(())
}

/// Reject blank note content, or content longer than ten thousand
/// characters.
pub fn validate_note_content(content: &str) -> (r: Result<(), String>)
    ensures
        r is Ok <==> trim_of(content@).len() > 0 && content@.len() <= 10000,
{
    let chars = text::chars_of(content);
    let trimmed = text::trim_str(content);
    if trimmed.unicode_len() == 0 {
        return Err(text::str_to_string("Note content cannot be empty"));
    }
    if chars.len() > 10000 {
        return Err(text::str_to_string("Note content too long (max 10000 characters)"));
    }
    Ok(())
}

/// Reject blank reminder text, or text longer than five hundred characters.
pub fn validate_reminder_text(reminder_text: &str) -> (r: Result<(), String>)
    ensures
        r is Ok <==> trim_of(reminder_text@).len() > 0 && reminder_text@.len() <= 500,
{
    let chars = text::chars_of(reminder_text);
    let trimmed = text::trim_str(reminder_text);
    if trimmed.unicode_len() == 0 {
        return Err(text::str_to_string("Reminder text cannot be empty"));
    }
    if chars.len() > 500 {
        return Err(text::str_to_string("Reminder text too long (max 500 characters)"));
    }
    Ok(())
}

/// Reject a date shorter than the ten characters of an ISO 8601 day.
pub fn validate_date_format(date: &str) -> (r: Result<(), String>)
    ensures
        r is Ok <==> date@.len() >= 10,
{
    if date.unicode_len() < 10 {
        return Err(text::str_to_string("Invalid date format (expected ISO 8601)"));
    }
    Ok(())
}

} // verus!
