//! The contact id value object: a nonempty identifier.

use vstd::prelude::*;
use crate::domain::errors::ValidationError;
use crate::text;

verus! {

/// A validated contact id: never empty.
pub struct ContactId {
    id: String,
}

impl View for ContactId {
    type V = Seq<char>;

    closed spec fn view(&self) -> Seq<char> {
        self.id@
    }
}

impl ContactId {
    /// Create a contact id; an empty string is rejected.
    pub fn new(id: &str) -> (r: Result<ContactId, ValidationError>)
        ensures
            match r {
                Ok(c) => id@.len() > 0 && c@ == id@,
                Err(e) => id@.len() == 0 && e matches ValidationError::EmptyId,
            },
    {
        if id.unicode_len() == 0 {
            Err(ValidationError::EmptyId)
        } else {
            Ok(ContactId { id: text::str_to_string(id) })
        }
    }

    /// The id as a string slice.
    pub fn as_str(&self) -> (r: &str)
        ensures
            r@ == self@,
    {
        self.id.as_str()
    }

    /// The id as an owned string.
    pub fn into_inner(self) -> (r: String)
        ensures
            r@ == self@,
    {
        self.id
    }
}

} // verus!
