//! The reminder record: a dated task attached to a contact.

use vstd::prelude::*;
use crate::models::contact::clone_opt_string;
use crate::models::contact::clone_string_vec;
use crate::text;
use vstd::string::StrSliceExecFns;

verus! {

/// A reminder associated with a contact.
pub struct Reminder {
    /// Unique identifier for the reminder
    pub id: String,
    /// Identifier of the contact the reminder belongs to
    pub contact_id: String,
    /// The reminder text
    pub text: String,
    /// When the reminder is due
    pub due_date: String,
    /// Whether the reminder has been completed
    pub completed: bool,
    /// When the reminder was completed
    pub completed_at: Option<String>,
    /// Creation timestamp
    pub created_at: String,
    /// Last update timestamp
    pub updated_at: Option<String>,
    /// Tags associated with the reminder
    pub tags: Vec<String>,
    /// Priority level (e.g. "high", "medium", "low")
    pub priority: Option<String>,
}

/// The mathematical value of a `Reminder`.
#[verifier::ext_equal]
pub struct ReminderView {
    pub id: Seq<char>,
    pub contact_id: Seq<char>,
    pub text: Seq<char>,
    pub due_date: Seq<char>,
    pub completed: bool,
    pub completed_at: Option<Seq<char>>,
    pub created_at: Seq<char>,
    pub updated_at: Option<Seq<char>>,
    pub tags: Seq<Seq<char>>,
    pub priority: Option<Seq<char>>,
}

impl View for Reminder {
    type V = ReminderView;

    open spec fn view(&self) -> ReminderView {
        ReminderView {
            id: self.id@,
            contact_id: self.contact_id@,
            text: self.text@,
            due_date: self.due_date@,
            completed: self.completed,
            completed_at: self.completed_at.deep_view(),
            created_at: self.created_at@,
            updated_at: self.updated_at.deep_view(),
            tags: self.tags.deep_view(),
            priority: self.priority.deep_view(),
        }
    }
}

impl DeepView for Reminder {
    type V = ReminderView;

    open spec fn deep_view(&self) -> ReminderView {
        self.view()
    }
}

impl Clone for Reminder {
    fn clone(&self) -> (res: Self)
        ensures
            res@ == self@,
    {
        let res = Reminder {
            id: self.id.clone(),
            contact_id: self.contact_id.clone(),
            text: self.text.clone(),
            due_date: self.due_date.clone(),
            completed: self.completed,
            completed_at: clone_opt_string(&self.completed_at),
            created_at: self.created_at.clone(),
            updated_at: clone_opt_string(&self.updated_at),
            tags: clone_string_vec(&self.tags),
            priority: clone_opt_string(&self.priority),
        };
        proof {
            assert(res@ =~= self@);
        }
        res
    }
}

impl Reminder {
    /// Create a new reminder with the required fields: not completed, no
    /// tags, no priority.
    pub fn new(
        id: String,
        contact_id: String,
        text: String,
        due_date: String,
        created_at: String,
    ) -> (r: Self)
        ensures
            r@.id == id@,
            r@.contact_id == contact_id@,
            r@.text == text@,
            r@.due_date == due_date@,
            !r@.completed,
            r@.completed_at is None,
            r@.created_at == created_at@,
            r@.updated_at is None,
            r@.tags == Seq::<Seq<char>>::empty(),
            r@.priority is None,
    {
        let r = Reminder {
            id,
            contact_id,
            text,
            due_date,
            completed: false,
            completed_at: None,
            created_at,
            updated_at: None,
            tags: Vec::new(),
            priority: None,
        };
        proof {
            assert(r@.tags =~= Seq::<Seq<char>>::empty());
        }
        r
    }

    /// Whether the reminder is overdue: not completed, and due strictly
    /// before the given date (dates compare lexicographically, which agrees
    /// with time order for ISO 8601 timestamps).
    pub fn is_overdue(&self, current_date: &str) -> (r: bool)
        ensures
            r == (!self@.completed && text::seq_lt(self@.due_date, current_date@)),
    {
        if self.completed {
            return false;
        }
        let due = text::chars_of(self.due_date.as_str());
        let cur = text::chars_of(current_date);
        text::chars_lt(&due, &cur)
    }

    /// Mark the reminder as completed at the given time.
    pub fn mark_completed(&mut self, completed_at: String)
        ensures
            final(self)@ == (ReminderView {
                completed: true,
                completed_at: Some(completed_at@),
                ..old(self)@
            }),
    {
        self.completed = true;
        self.completed_at = Some(completed_at);
        proof {
            assert(final(self)@ =~= (ReminderView {
                completed: true,
                completed_at: Some(completed_at@),
                ..old(self)@
            }));
        }
    }
}

// ---------------------------------------------------------------------------
// Request payloads
// ---------------------------------------------------------------------------
/// The timestamp a record gets when the data source reports none: empty.
pub fn default_timestamp() -> (r: String)
    ensures
        r@ == Seq::<char>::empty(),
{
    String::new()
}

/// One contact reference of a reminder.
pub struct RemindersContactsData {
    /// The contact
    pub contact_id: String,
}

/// The contact references of a reminder.
pub struct RemindersContacts {
    /// The entries
    pub data: Vec<RemindersContactsData>,
}

/// The body of a reminder creation request.
pub struct ReminderPayload {
    /// An optional title; the data source refuses one at creation
    pub title: Option<String>,
    /// The reminder text
    pub text: String,
    /// Whether the reminder is already completed
    pub is_complete: Option<bool>,
    /// When the reminder is due
    pub due_at_date: String,
    /// The contacts the reminder belongs to
    pub reminders_contacts: RemindersContacts,
    /// Priority level
    pub priority: Option<String>,
}

/// A request to create a reminder.
pub struct CreateReminderRequest {
    /// The new reminder's fields
    pub reminder: ReminderPayload,
}

impl CreateReminderRequest {
    /// Build a creation request from a reminder: text, due date, contact and
    /// priority carry over; no title is sent, and completion only when set.
    pub fn from(reminder: &Reminder) -> (r: Self)
        ensures
            r.reminder.title is None,
            r.reminder.text@ == reminder@.text,
            r.reminder.is_complete == (if reminder@.completed {
                Some(true)
            } else {
                None::<bool>
            }),
            r.reminder.due_at_date@ == reminder@.due_date,
            r.reminder.reminders_contacts.data@.len() == 1,
            r.reminder.reminders_contacts.data@[0].contact_id@ == reminder@.contact_id,
            r.reminder.priority.deep_view() == reminder@.priority,
    {
        let mut data: Vec<RemindersContactsData> = Vec::new();
        data.push(RemindersContactsData { contact_id: reminder.contact_id.clone() });
        CreateReminderRequest {
            reminder: ReminderPayload {
                title: None,
                text: reminder.text.clone(),
                is_complete: if reminder.completed {
                    Some(true)
                } else {
                    None
                },
                due_at_date: reminder.due_date.clone(),
                reminders_contacts: RemindersContacts { data },
                priority: clone_opt_string(&reminder.priority),
            },
        }
    }
}

/// The changed fields of a reminder update.
pub struct ReminderChanges {
    /// New text, when it changes
    pub text: Option<String>,
    /// New completion state
    pub is_complete: Option<bool>,
    /// New due date, when it changes
    pub due_at_date: Option<String>,
    /// New due time, when it changes
    pub due_at_time: Option<String>,
}

/// A request to update a reminder.
pub struct UpdateReminderRequest {
    /// The changed fields
    pub changes: ReminderChanges,
}

impl UpdateReminderRequest {
    /// Build an update request from a reminder: nonempty text and due date
    /// carry over, completion always does, and no due time is sent.
    pub fn from(reminder: &Reminder) -> (r: Self)
        ensures
            reminder@.text.len() == 0 <==> r.changes.text is None,
            r.changes.text matches Some(t) ==> t@ == reminder@.text,
            r.changes.is_complete == Some(reminder@.completed),
            reminder@.due_date.len() == 0 <==> r.changes.due_at_date is None,
            r.changes.due_at_date matches Some(d) ==> d@ == reminder@.due_date,
            r.changes.due_at_time is None,
    {
        let text_field: Option<String> = if reminder.text.as_str().unicode_len() == 0 {
            None
        } else {
            Some(reminder.text.clone())
        };
        let due: Option<String> = if reminder.due_date.as_str().unicode_len() == 0 {
            None
        } else {
            Some(reminder.due_date.clone())
        };
        UpdateReminderRequest {
            changes: ReminderChanges {
                text: text_field,
                is_complete: Some(reminder.completed),
                due_at_date: due,
                due_at_time: None,
            },
        }
    }
}

} // verus!
