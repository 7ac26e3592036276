//! Validated value objects: contact ids, email addresses and phone numbers,
//! checked at construction.

pub mod contact_id;
pub mod email;
pub mod errors;
pub mod phone;

pub use contact_id::ContactId;
pub use email::EmailAddress;
pub use errors::ValidationError;
pub use phone::PhoneNumber;
