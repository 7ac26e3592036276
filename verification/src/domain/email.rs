//! The email address value object, validated at construction: one `@`, a
//! nonempty local part, and a dotted, nonempty domain with no empty labels.

use vstd::prelude::*;
use vstd::string::StrSliceExecFns;
use crate::domain::errors::ValidationError;
use crate::text;

verus! {

/// `p` is the position of the only `@` of `s`, and what stands around it is
/// well formed: a nonempty local part, then a domain holding a dot, with no
/// leading, trailing or doubled dots.
pub open spec fn email_shape(s: Seq<char>, p: int) -> bool {
    let dom = s.skip(p + 1);
    &&& 0 < p < s.len()
    &&& s[p] == '@'
    &&& forall|t: int| 0 <= t < s.len() && t != p ==> s[t] != '@'
    &&& dom.len() > 0
    &&& exists|j: int| 0 <= j < dom.len() && dom[j] == '.'
    &&& dom[0] != '.'
    &&& dom[dom.len() - 1] != '.'
    &&& forall|j: int| #![trigger dom[j]] 0 <= j < dom.len() - 1 ==> !(dom[j] == '.' && dom[j + 1] == '.')
}

/// A valid email address: some position carries its only `@`, with a sound
/// local part and domain around it.
pub open spec fn valid_email(s: Seq<char>) -> bool {
    exists|p: int| email_shape(s, p)
}

/// A validated email address.
pub struct EmailAddress {
    email: String,
}

impl View for EmailAddress {
    type V = Seq<char>;

    closed spec fn view(&self) -> Seq<char> {
        self.email@
    }
}

#[verifier::type_invariant]
pub open spec fn email_inv(e: EmailAddress) -> bool {
    valid_email(e@)
}

impl EmailAddress {
    /// Whether a string is a well-formed email address.
    pub fn is_valid(email: &str) -> (r: bool)
        ensures
            r == valid_email(email@),
    {
        let chars = text::chars_of(email);
        let n = chars.len();
        // find the one `@`, if there is exactly one
        let mut at: Option<usize> = None;
        let mut twice = false;
        let mut i: usize = 0;
        while i < n
            invariant
                n == chars@.len(),
                i <= n,
                match at {
                    Some(p) => p < i && chars@[p as int] == '@' && (forall|t: int|
                        0 <= t < i && t != p ==> chars@[t] != '@') || twice,
                    None => !twice ==> forall|t: int| 0 <= t < i ==> chars@[t] != '@',
                },
                twice ==> !valid_email(chars@),
                at is None ==> !twice,
            decreases n - i,
        {
            if chars[i] == '@' {
                match at {
                    Some(p) => {
                        proof {
                            if email_shape(chars@, choose|q: int| email_shape(chars@, q)) {
                                let q = choose|q: int| email_shape(chars@, q);
                                if q != p as int {
                                    assert(chars@[p as int] != '@');
                                } else {
                                    assert(chars@[i as int] != '@');
                                }
                            }
                        }
                        twice = true;
                    },
                    None => {
                        if !twice {
                            at = Some(i);
                        }
                    },
                }
            }
            i = i + 1;
        }
        if twice {
            return false;
        }
        let p = match at {
            Some(p) => p,
            None => {
                proof {
                    assert forall|q: int| !email_shape(chars@, q) by {
                        if 0 <= q < chars@.len() {
                            assert(chars@[q] != '@');
                        }
                    }
                }
                return false;
            },
        };
        if p == 0 {
            proof {
                assert forall|q: int| !email_shape(chars@, q) by {
                    if 0 < q < chars@.len() {
                        assert(chars@[q] != '@');
                    }
                }
            }
            return false;
        }
        // the domain is everything after the `@`
        let ghost dom = chars@.skip(p + 1);
        proof {
            assert(forall|j: int| 0 <= j < dom.len() ==> dom[j] == chars@[p + 1 + j]);
            assert forall|q: int| q != p as int implies !email_shape(chars@, q) by {
                if 0 <= q < chars@.len() {
                    assert(chars@[q] != '@');
                }
            }
        }
        if p + 1 == n {
            assert(!email_shape(chars@, p as int));
            return false;
        }
        let mut has_dot = false;
        let mut bad = false;
        let mut j: usize = p + 1;
        while j < n
            invariant
                n == chars@.len(),
                p + 1 <= j <= n,
                dom == chars@.skip(p + 1),
                forall|t: int| 0 <= t < dom.len() ==> dom[t] == chars@[p + 1 + t],
                has_dot <==> exists|t: int| 0 <= t < j - p - 1 && dom[t] == '.',
                !bad ==> forall|t: int| #![trigger dom[t]]
                    0 <= t < j - p - 2 ==> !(dom[t] == '.' && dom[t + 1] == '.'),
                bad ==> !email_shape(chars@, p as int),
            decreases n - j,
        {
            if chars[j] == '.' {
                proof {
                    assert(dom[j - p - 1] == '.');
                }
                has_dot = true;
                if j > p + 1 && chars[j - 1] == '.' {
                    proof {
                        assert(dom[j - p - 2] == '.' && dom[j - p - 1] == '.');
                    }
                    bad = true;
                }
            }
            j = j + 1;
        }
        if bad {
            return false;
        }
        if !has_dot {
            assert(!email_shape(chars@, p as int));
            return false;
        }
        if chars[p + 1] == '.' {
            assert(dom[0] == '.');
            assert(!email_shape(chars@, p as int));
            return false;
        }
        if chars[n - 1] == '.' {
            assert(dom[dom.len() - 1] == '.');
            assert(!email_shape(chars@, p as int));
            return false;
        }
        proof {
            assert(email_shape(chars@, p as int));
        }
        true
    }

    /// Create an email address; a malformed one is rejected.
    pub fn new(email: &str) -> (r: Result<EmailAddress, ValidationError>)
        ensures
            match r {
                Ok(e) => valid_email(email@) && e@ == email@,
                Err(err) => !valid_email(email@) && (err matches ValidationError::InvalidEmail(
                    m,
                ) && m@ == email@),
            },
    {
        if Self::is_valid(email) {
            let e = EmailAddress { email: text::str_to_string(email) };
            proof {
                assert(email_inv(e));
            }
            Ok(e)
        } else {
            Err(ValidationError::InvalidEmail(text::str_to_string(email)))
        }
    }

    /// The address as a string slice.
    pub fn as_str(&self) -> (r: &str)
        ensures
            r@ == self@,
    {
        self.email.as_str()
    }

    /// The address as an owned string.
    pub fn into_inner(self) -> (r: String)
        ensures
            r@ == self@,
    {
        self.email
    }

    /// The position of the address's `@`.
    fn at_position(&self) -> (r: usize)
        ensures
            valid_email(self@) && email_shape(self@, r as int),
    {
        proof {
            use_type_invariant(self);
        }
        let s = self.email.as_str();
        let n = s.unicode_len();
        let mut i: usize = 0;
        while i < n
            invariant
                n == self@.len(),
                s@ == self@,
                i <= n,
                valid_email(self@),
                forall|t: int| 0 <= t < i ==> self@[t] != '@',
            decreases n - i,
        {
            if s.get_char(i) == '@' {
                proof {
                    let q = choose|q: int| email_shape(self@, q);
                    if q != i as int {
                        assert(self@[i as int] != '@');
                    }
                }
                return i;
            }
            i = i + 1;
        }
        proof {
            let q = choose|q: int| email_shape(self@, q);
            assert(self@[q] != '@');
        }
        // a valid address always holds an `@`; this point is unreachable
        proof {
            assert(false);
        }
        0
    }

    /// The local part: everything before the `@`.
    pub fn local_part(&self) -> (r: &str)
        ensures
            exists|p: int|
                email_shape(self@, p) && r@ == self@.take(p),
    {
        let p = self.at_position();
        self.email.as_str().substring_char(0, p)
    }

    /// The domain: everything after the `@`.
    pub fn domain(&self) -> (r: &str)
        ensures
            exists|p: int|
                email_shape(self@, p) && r@ == self@.skip(p + 1),
    {
        let p = self.at_position();
        let s = self.email.as_str();
        let n = s.unicode_len();
        let r = s.substring_char(p + 1, n);
        proof {
            assert(r@ =~= self@.skip(p + 1));
        }
        r
    }
}

} // verus!
