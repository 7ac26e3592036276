//! Data model: contacts, notes and reminders, with their mathematical views.

pub mod contact;
pub mod note;
pub mod reminder;

pub use contact::{Contact, ContactView, EmailEntry, PhoneEntry, SocialProfile, SocialProfileView};
pub use note::{Note, NoteView};
pub use reminder::{Reminder, ReminderView};
