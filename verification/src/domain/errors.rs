//! Validation failures of the domain value objects.

use vstd::prelude::*;
use vstd::string::StringExecFns;
use crate::text;

verus! {

/// Why a domain value was rejected.
#[derive(Debug)]
pub enum ValidationError {
    /// The provided id is empty.
    EmptyId,
    /// The provided email address is invalid.
    InvalidEmail(String),
    /// The provided phone number is invalid.
    InvalidPhone(String),
}

impl ValidationError {
    /// The failure, described in a sentence.
    pub fn message(&self) -> (r: String)
        ensures
            match self {
                ValidationError::EmptyId => r@ == "ID cannot be empty"@,
                ValidationError::InvalidEmail(email) => r@ == "Invalid email address: "@ + email@,
                ValidationError::InvalidPhone(phone) => r@ == "Invalid phone number: "@ + phone@,
            },
    {
        match self {
            ValidationError::EmptyId => text::str_to_string("ID cannot be empty"),
            ValidationError::InvalidEmail(email) => {
                let mut s = text::str_to_string("Invalid email address: ");
                s.append(email.as_str());
                s
            },
            ValidationError::InvalidPhone(phone) => {
                let mut s = text::str_to_string("Invalid phone number: ");
                s.append(phone.as_str());
                s
            },
        }
    }
}

} // verus!
