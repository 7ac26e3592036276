//! The phone number value object, validated at construction: nonempty, at
//! least one digit, and only digits, spaces, hyphens, parentheses, plus
//! signs and periods.

use vstd::prelude::*;
use crate::domain::errors::ValidationError;
use crate::text;
use crate::text::{digits_of, is_digit};

verus! {

/// A character a phone number may hold.
pub open spec fn phone_char(c: char) -> bool {
    is_digit(c) || c == ' ' || c == '-' || c == '(' || c == ')' || c == '+' || c == '.'
}

/// A valid phone number: nonempty, at least one digit, and nothing but
/// phone characters.
pub open spec fn valid_phone(s: Seq<char>) -> bool {
    &&& s.len() > 0
    &&& exists|j: int| 0 <= j < s.len() && is_digit(s[j])
    &&& forall|j: int| 0 <= j < s.len() ==> phone_char(s[j])
}

/// A validated phone number.
pub struct PhoneNumber {
    phone: String,
}

impl View for PhoneNumber {
    type V = Seq<char>;

    closed spec fn view(&self) -> Seq<char> {
        self.phone@
    }
}

impl PhoneNumber {
    /// Whether a string is a well-formed phone number.
    pub fn is_valid(phone: &str) -> (r: bool)
        ensures
            r == valid_phone(phone@),
    {
        let chars = text::chars_of(phone);
        let n = chars.len();
        if n == 0 {
            return false;
        }
        let mut has_digit = false;
        let mut i: usize = 0;
        while i < n
            invariant
                n == chars@.len(),
                chars@ == phone@,
                i <= n,
                has_digit <==> exists|j: int| 0 <= j < i && is_digit(chars@[j]),
                forall|j: int| 0 <= j < i ==> phone_char(chars@[j]),
            decreases n - i,
        {
            let c = chars[i];
            if text::is_digit_exec(c) {
                has_digit = true;
            } else if !(c == ' ' || c == '-' || c == '(' || c == ')' || c == '+' || c == '.') {
                assert(!phone_char(chars@[i as int]));
                return false;
            }
            i = i + 1;
        }
        has_digit
    }

    /// Create a phone number; a malformed one is rejected.
    pub fn new(phone: &str) -> (r: Result<PhoneNumber, ValidationError>)
        ensures
            match r {
                Ok(p) => valid_phone(phone@) && p@ == phone@,
                Err(err) => !valid_phone(phone@) && (err matches ValidationError::InvalidPhone(
                    m,
                ) && m@ == phone@),
            },
    {
        if Self::is_valid(phone) {
            Ok(PhoneNumber { phone: text::str_to_string(phone) })
        } else {
            Err(ValidationError::InvalidPhone(text::str_to_string(phone)))
        }
    }

    /// The number as a string slice.
    pub fn as_str(&self) -> (r: &str)
        ensures
            r@ == self@,
    {
        self.phone.as_str()
    }

    /// The number as an owned string.
    pub fn into_inner(self) -> (r: String)
        ensures
            r@ == self@,
    {
        self.phone
    }

    /// The number's digits, with all formatting removed.
    pub fn digits_only(&self) -> (r: String)
        ensures
            r@ == digits_of(self@),
    {
        let chars = text::chars_of(self.phone.as_str());
        let digits = text::digit_chars(&chars);
        text::string_from_chars(&digits)
    }
}

} // verus!
