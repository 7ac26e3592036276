//! Parameters for enriching contacts and creating notes and reminders. The
//! writes themselves go through the remote data source; these types carry
//! what the caller asks for.

use vstd::prelude::*;
use crate::models::SocialProfile;

verus! {

/// Parameters for enriching a contact: every set field replaces or extends
/// the stored one.
pub struct EnrichContactParams {
    /// Contact to enrich
    pub contact_id: String,
    /// New first name
    pub first_name: Option<String>,
    /// New last name
    pub last_name: Option<String>,
    /// New primary email
    pub email: Option<String>,
    /// New primary phone
    pub phone: Option<String>,
    /// New company
    pub company: Option<String>,
    /// New title
    pub title: Option<String>,
    /// New website
    pub website: Option<String>,
    /// New location
    pub location: Option<String>,
    /// New birthday
    pub birthday: Option<String>,
    /// New notes
    pub notes: Option<String>,
    /// Additional emails, merged with the existing ones
    pub additional_emails: Option<Vec<String>>,
    /// Additional phones, merged with the existing ones
    pub additional_phones: Option<Vec<String>>,
    /// Tags, merged with the existing ones
    pub tags: Option<Vec<String>>,
    /// Social profiles, merged with the existing ones
    pub social_profiles: Option<Vec<SocialProfile>>,
}

impl Default for EnrichContactParams {
    /// No contact and nothing to change.
    fn default() -> (r: Self)
        ensures
            r.contact_id@ == Seq::<char>::empty(),
            r.first_name is None,
            r.last_name is None,
            r.email is None,
            r.phone is None,
            r.company is None,
            r.title is None,
            r.website is None,
            r.location is None,
            r.birthday is None,
            r.notes is None,
            r.additional_emails is None,
            r.additional_phones is None,
            r.tags is None,
            r.social_profiles is None,
    {
        EnrichContactParams {
            contact_id: String::new(),
            first_name: None,
            last_name: None,
            email: None,
            phone: None,
            company: None,
            title: None,
            website: None,
            location: None,
            birthday: None,
            notes: None,
            additional_emails: None,
            additional_phones: None,
            tags: None,
            social_profiles: None,
        }
    }
}

/// Parameters for creating a note.
pub struct CreateNoteParams {
    /// Contact the note belongs to
    pub contact_id: String,
    /// The note content, possibly holding HTML
    pub content: String,
    /// Tags for the note
    pub tags: Option<Vec<String>>,
    /// Where the note came from, such as "manual" or "email"
    pub source: Option<String>,
}

/// Parameters for creating a reminder.
pub struct CreateReminderParams {
    /// Contact the reminder belongs to
    pub contact_id: String,
    /// The reminder text
    pub text: String,
    /// When the reminder is due
    pub due_date: String,
    /// Tags for the reminder
    pub tags: Option<Vec<String>>,
    /// Priority, such as "high", "medium" or "low"
    pub priority: Option<String>,
}

} // verus!
