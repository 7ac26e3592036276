//! Fuzzy matching for contact discovery: exact matching on email, phone and
//! social URLs, fuzzy name matching by substring containment and Levenshtein
//! distance, and ranking by confidence.

use vstd::prelude::*;
use vstd::multiset::Multiset;
use crate::models::{Contact, ContactView};
use crate::text;
use crate::text::{
    contains_seq, digits_of, is_digit, join_spaced, lev, lower_of, seq_le, seq_lt,
    strip_prefix_all, strip_suffix_char, trim_of, words_of,
};

verus! {

// ---------------------------------------------------------------------------
// Normalisation
// ---------------------------------------------------------------------------
/// A normalised email: trimmed, then lowercased. Trimming and lowercasing
/// are Unicode, through `trim_of` and `lower_of`.
pub open spec fn norm_email(s: Seq<char>) -> Seq<char> {
    lower_of(trim_of(s))
}

/// A normalised phone number: its digits, keeping at most the last ten so
/// that country codes do not matter.
pub open spec fn norm_phone(s: Seq<char>) -> Seq<char> {
    let d = digits_of(s);
    if d.len() > 10 {
        d.skip(d.len() - 10)
    } else {
        d
    }
}

pub open spec fn https_prefix() -> Seq<char> {
    seq!['h', 't', 't', 'p', 's', ':', '/', '/']
}

pub open spec fn http_prefix() -> Seq<char> {
    seq!['h', 't', 't', 'p', ':', '/', '/']
}

pub open spec fn www_prefix() -> Seq<char> {
    seq!['w', 'w', 'w', '.']
}

/// A normalised URL: trimmed and lowercased, then every leading "https://",
/// then every leading "http://", then every leading "www." removed, then
/// trailing slashes removed.
pub open spec fn norm_url(s: Seq<char>) -> Seq<char> {
    strip_suffix_char(
        strip_prefix_all(
            strip_prefix_all(
                strip_prefix_all(lower_of(trim_of(s)), https_prefix()),
                http_prefix(),
            ),
            www_prefix(),
        ),
        '/',
    )
}

/// A normalised name: trimmed and lowercased, with every whitespace run
/// collapsed to a single space.
pub open spec fn norm_name(s: Seq<char>) -> Seq<char> {
    join_spaced(words_of(lower_of(trim_of(s))))
}

// ---------------------------------------------------------------------------
// Fuzzy scoring
// ---------------------------------------------------------------------------
pub open spec fn max_int(a: int, b: int) -> int {
    if a >= b {
        a
    } else {
        b
    }
}

pub open spec fn min_int(a: int, b: int) -> int {
    if a <= b {
        a
    } else {
        b
    }
}

/// The fuzzy score of a query against a target, both already normalised:
/// 95 for equality, a length-weighted 10..=95 when the target contains the
/// query, 85 when the query contains the target, and otherwise a scaled
/// Levenshtein similarity, zero when more than half the characters differ.
/// All lengths count Unicode code points, the same currency the edit
/// distance is measured in.
pub open spec fn fuzzy_score(q: Seq<char>, t: Seq<char>) -> int {
    if q.len() == 0 || t.len() == 0 {
        0
    } else if q == t {
        95
    } else if contains_seq(t, q) {
        (85 * (q.len() as int) + 10 * (t.len() as int)) / (t.len() as int)
    } else if contains_seq(q, t) {
        85
    } else {
        let d = lev(q, t);
        let m = max_int(q.len() as int, t.len() as int);
        if 2 * d > m {
            0
        } else {
            (85 * (m - d)) / m
        }
    }
}

/// Fuzzy scores stay between 0 and 95: 100 is reserved for exact field
/// matches.
pub proof fn lemma_fuzzy_score_bounds(q: Seq<char>, t: Seq<char>)
    ensures
        0 <= fuzzy_score(q, t) <= 95,
{
    if q.len() == 0 || t.len() == 0 || q == t {
    } else if contains_seq(t, q) {
        let i = choose|i: int| text::contains_at(t, i, q);
        assert(q.len() <= t.len());
        assert((85 * (q.len() as int) + 10 * (t.len() as int)) / (t.len() as int) <= 95)
            by (nonlinear_arith)
            requires
                0 < t.len(),
                q.len() <= t.len(),
        ;
        assert((85 * (q.len() as int) + 10 * (t.len() as int)) / (t.len() as int) >= 0)
            by (nonlinear_arith)
            requires
                0 < t.len(),
                0 <= q.len(),
        ;
    } else if contains_seq(q, t) {
    } else {
        let d = lev(q, t);
        let m = max_int(q.len() as int, t.len() as int);
        text::lemma_lev_bounds(q, t);
        if 2 * d <= m {
            assert((85 * (m - d)) / m <= 95 && (85 * (m - d)) / m >= 0) by (nonlinear_arith)
                requires
                    0 < m,
                    0 <= d,
                    d <= m,
            ;
        }
    }
}

/// The type of match that produced a result.
#[derive(Debug, Clone, Copy, PartialEq, Eq, Structural)]
pub enum MatchType {
    /// Exact email match
    ExactEmail,
    /// Exact phone match
    ExactPhone,
    /// Exact social URL match
    ExactSocial,
    /// Fuzzy name match
    FuzzyName,
}

/// A match result: a contact, its confidence and how it matched.
pub struct MatchResult {
    /// The matched contact
    pub contact: Contact,
    /// Confidence score, 0 to 100, where 100 is an exact match
    pub confidence: u8,
    /// The kind of match that produced this result
    pub match_type: MatchType,
}

/// The mathematical value of a `MatchResult`.
#[verifier::ext_equal]
pub struct MatchResultView {
    pub contact: ContactView,
    pub confidence: u8,
    pub match_type: MatchType,
}

impl View for MatchResult {
    type V = MatchResultView;

    open spec fn view(&self) -> MatchResultView {
        MatchResultView {
            contact: self.contact@,
            confidence: self.confidence,
            match_type: self.match_type,
        }
    }
}

impl DeepView for MatchResult {
    type V = MatchResultView;

    open spec fn deep_view(&self) -> MatchResultView {
        self.view()
    }
}

impl Clone for MatchResult {
    fn clone(&self) -> (res: Self)
        ensures
            res@ == self@,
    {
        let res = MatchResult {
            contact: self.contact.clone(),
            confidence: self.confidence,
            match_type: self.match_type,
        };
        proof {
            assert(res@ =~= self@);
        }
        res
    }
}

/// Search query parameters for contact matching.
pub struct ContactQuery {
    /// Name to search for
    pub name: Option<String>,
    /// Email to search for
    pub email: Option<String>,
    /// Phone number to search for
    pub phone: Option<String>,
    /// Company to search for
    pub company: Option<String>,
    /// Social media URL to search for
    pub social_url: Option<String>,
}

/// The mathematical value of a `ContactQuery`.
#[verifier::ext_equal]
pub struct ContactQueryView {
    pub name: Option<Seq<char>>,
    pub email: Option<Seq<char>>,
    pub phone: Option<Seq<char>>,
    pub company: Option<Seq<char>>,
    pub social_url: Option<Seq<char>>,
}

impl View for ContactQuery {
    type V = ContactQueryView;

    open spec fn view(&self) -> ContactQueryView {
        ContactQueryView {
            name: self.name.deep_view(),
            email: self.email.deep_view(),
            phone: self.phone.deep_view(),
            company: self.company.deep_view(),
            social_url: self.social_url.deep_view(),
        }
    }
}

impl Clone for ContactQuery {
    fn clone(&self) -> (res: Self)
        ensures
            res@ == self@,
    {
        let res = ContactQuery {
            name: crate::models::contact::clone_opt_string(&self.name),
            email: crate::models::contact::clone_opt_string(&self.email),
            phone: crate::models::contact::clone_opt_string(&self.phone),
            company: crate::models::contact::clone_opt_string(&self.company),
            social_url: crate::models::contact::clone_opt_string(&self.social_url),
        };
        proof {
            assert(res@ =~= self@);
        }
        res
    }
}

impl Default for ContactQuery {
    /// The empty query: no field set.
    fn default() -> (r: Self)
        ensures
            r@.name is None,
            r@.email is None,
            r@.phone is None,
            r@.company is None,
            r@.social_url is None,
    {
        ContactQuery { name: None, email: None, phone: None, company: None, social_url: None }
    }
}

// ---------------------------------------------------------------------------
// Per-contact matching rules
// ---------------------------------------------------------------------------
/// The query email matches the contact's primary email or one of its listed
/// emails, after normalisation.
pub open spec fn email_match(q: Seq<char>, c: ContactView) -> bool {
    (c.email matches Some(e) && norm_email(e) == norm_email(q)) || (exists|i: int|
        0 <= i < c.emails.len() && norm_email(#[trigger] c.emails[i]) == norm_email(q))
}

/// The query phone matches the contact's primary phone or one of its listed
/// phones, after normalisation.
pub open spec fn phone_match(q: Seq<char>, c: ContactView) -> bool {
    (c.phone matches Some(p) && norm_phone(p) == norm_phone(q)) || (exists|i: int|
        0 <= i < c.phones.len() && norm_phone(#[trigger] c.phones[i]) == norm_phone(q))
}

/// The query URL matches one of the contact's social profile URLs, after
/// normalisation.
pub open spec fn social_match(q: Seq<char>, c: ContactView) -> bool {
    exists|i: int|
        0 <= i < c.social_profiles.len() && norm_url(#[trigger] c.social_profiles[i].url)
            == norm_url(q)
}

/// The fuzzy score of the query name against the contact name, both
/// normalised.
pub open spec fn name_score(q: Seq<char>, name: Seq<char>) -> int {
    fuzzy_score(norm_name(q), norm_name(name))
}

/// The confidence of a fuzzy name match, after the company boost: when both
/// sides name a company and the companies' fuzzy score clears 50, the name
/// score is raised by 15, capped at 95.
pub open spec fn boosted_name_score(q: ContactQueryView, c: ContactView) -> int {
    let base = name_score(q.name->0, c.name);
    if q.company matches Some(qc) && c.company matches Some(cc) && fuzzy_score(
        norm_name(qc),
        norm_name(cc),
    ) > 50 {
        min_int(base + 15, 95)
    } else {
        base
    }
}

/// What a contact contributes to the match list, before the confidence
/// threshold: the first rule that hits wins — exact email, exact phone,
/// exact social URL, then fuzzy name.
pub open spec fn contact_match(q: ContactQueryView, c: ContactView) -> Option<(int, MatchType)> {
    if q.email matches Some(e) && email_match(e, c) {
        Some((100int, MatchType::ExactEmail))
    } else if q.phone matches Some(p) && phone_match(p, c) {
        Some((100int, MatchType::ExactPhone))
    } else if q.social_url matches Some(u) && social_match(u, c) {
        Some((100int, MatchType::ExactSocial))
    } else if q.name matches Some(n) && name_score(n, c.name) > 0 {
        Some((boosted_name_score(q, c), MatchType::FuzzyName))
    } else {
        None
    }
}

/// Whether a contact is kept for the result list: exact matches always are;
/// fuzzy name matches only when they clear the confidence threshold.
pub open spec fn contact_kept(q: ContactQueryView, c: ContactView, min_confidence: u8) -> Option<
    MatchResultView,
> {
    match contact_match(q, c) {
        Some((conf, mt)) => {
            if mt == MatchType::FuzzyName && conf < min_confidence {
                None
            } else {
                Some(MatchResultView { contact: c, confidence: conf as u8, match_type: mt })
            }
        },
        None => None,
    }
}

/// The kept matches of a contact list, in input order.
pub open spec fn candidates(q: ContactQueryView, cs: Seq<ContactView>, min_confidence: u8) -> Seq<
    MatchResultView,
>
    decreases cs.len(),
{
    if cs.len() == 0 {
        Seq::empty()
    } else {
        let rest = candidates(q, cs.skip(1), min_confidence);
        match contact_kept(q, cs[0], min_confidence) {
            Some(m) => seq![m] + rest,
            None => rest,
        }
    }
}

// ---------------------------------------------------------------------------
// The matcher
// ---------------------------------------------------------------------------
/// Contact matcher with fuzzy and exact matching capabilities.
pub struct ContactMatcher {
}

impl ContactMatcher {
    /// Create a new matcher.
    pub fn new() -> (r: Self) {
        ContactMatcher {  }
    }

    /// Normalise an email address: trim whitespace, lowercase.
    pub fn normalize_email(email: &str) -> (r: String)
        ensures
            r@ == norm_email(email@),
    {
        text::to_lowercase(text::trim_str(email))
    }

    /// Normalise a phone number: keep only digits, and of those at most the
    /// last ten.
    pub fn normalize_phone(phone: &str) -> (r: String)
        ensures
            r@ == norm_phone(phone@),
    {
        let chars = text::chars_of(phone);
        let digits = text::digit_chars(&chars);
        if digits.len() > 10 {
            let start = digits.len() - 10;
            let mut r: Vec<char> = Vec::new();
            let mut i: usize = start;
            while i < digits.len()
                invariant
                    start <= i <= digits@.len(),
                    r@ == digits@.subrange(start as int, i as int),
                decreases digits@.len() - i,
            {
                r.push(digits[i]);
                assert(r@ =~= digits@.subrange(start as int, i + 1));
                i = i + 1;
            }
            assert(r@ =~= digits_of(phone@).skip(start as int));
            text::string_from_chars(&r)
        } else {
            text::string_from_chars(&digits)
        }
    }

    /// Normalise a URL: trim and lowercase, strip the scheme and a leading
    /// "www.", strip trailing slashes.
    pub fn normalize_url(url: &str) -> (r: String)
        ensures
            r@ == norm_url(url@),
    {
        let lowered_str = text::to_lowercase(text::trim_str(url));
        let lowered = text::chars_of(lowered_str.as_str());
        let https = text::chars_of("https://");
        let http = text::chars_of("http://");
        let www = text::chars_of("www.");
        proof {
            reveal_strlit("https://");
            reveal_strlit("http://");
            reveal_strlit("www.");
            assert(https@ =~= https_prefix());
            assert(http@ =~= http_prefix());
            assert(www@ =~= www_prefix());
        }
        let s1 = text::strip_prefix_all_exec(lowered, &https);
        let s2 = text::strip_prefix_all_exec(s1, &http);
        let s3 = text::strip_prefix_all_exec(s2, &www);
        let s4 = text::strip_suffix_char_exec(s3, '/');
        text::string_from_chars(&s4)
    }

    /// Normalise a name: trim and lowercase, collapse whitespace runs to
    /// single spaces.
    pub fn normalize_name(name: &str) -> (r: String)
        ensures
            r@ == norm_name(name@),
    {
        let lowered = text::to_lowercase(text::trim_str(name));
        let ws = text::split_whitespace_words(lowered.as_str());
        let wsv = text::strings_to_char_vecs(&ws);
        let joined = text::join_words(&wsv);
        proof {
            let f = |w: Vec<char>| w@;
            assert(wsv@.map_values(f) =~= words_of(lower_of(trim_of(name@))));
        }
        text::string_from_chars(&joined)
    }

    /// The Levenshtein edit distance between two strings, over Unicode code
    /// points.
    pub fn levenshtein_distance(s1: &str, s2: &str) -> (d: usize)
        ensures
            d == lev(s1@, s2@),
    {
        text::levenshtein_distance(s1, s2)
    }

    /// The fuzzy score of a query against a target, 0 to 95.
    pub fn calculate_fuzzy_score(query: &str, target: &str) -> (r: u8)
        ensures
            r == fuzzy_score(query@, target@),
            r <= 95,
    {
        proof {
            lemma_fuzzy_score_bounds(query@, target@);
        }
        let q = text::chars_of(query);
        let t = text::chars_of(target);
        Self::fuzzy_score_chars(&q, &t)
    }

    /// The fuzzy score over character vectors.
    pub fn fuzzy_score_chars(q: &Vec<char>, t: &Vec<char>) -> (r: u8)
        ensures
            r == fuzzy_score(q@, t@),
            r <= 95,
    {
        proof {
            lemma_fuzzy_score_bounds(q@, t@);
        }
        if q.len() == 0 || t.len() == 0 {
            return 0;
        }
        if text::chars_eq(q, t) {
            return 95;
        }
        if text::contains_chars(t, q) {
            let num: u128 = 85 * (q.len() as u128) + 10 * (t.len() as u128);
            let den: u128 = t.len() as u128;
            let score = num / den;
            proof {
                assert(text::contains_at(t@, choose|i: int| text::contains_at(t@, i, q@), q@));
                assert(q@.len() <= t@.len());
                assert(num as int == 85 * (q@.len() as int) + 10 * (t@.len() as int));
                assert(den as int == t@.len() as int);
                assert(score as int == (85 * (q@.len() as int) + 10 * (t@.len() as int)) / (
                t@.len() as int));
            }
            return score as u8;
        }
        if text::contains_chars(q, t) {
            return 85;
        }
        let d = text::levenshtein_chars(q, t);
        let m = if q.len() >= t.len() {
            q.len()
        } else {
            t.len()
        };
        proof {
            text::lemma_lev_bounds(q@, t@);
        }
        if 2 * (d as u128) > (m as u128) {
            0
        } else {
            let score = (85 * ((m - d) as u128)) / (m as u128);
            proof {
                assert(85 * ((m - d) as u128) as int == 85 * (m - d));
                assert(score as int == (85 * ((m as int) - (d as int))) / (m as int));
            }
            score as u8
        }
    }

    /// Match an email against the contact's emails; 100 on a hit.
    pub fn match_email(&self, query_email: &str, contact: &Contact) -> (r: Option<u8>)
        ensures
            r == if email_match(query_email@, contact@) {
                Some(100u8)
            } else {
                None::<u8>
            },
    {
        let nq = Self::normalize_email(query_email);
        if let Some(email) = &contact.email {
            let ne = Self::normalize_email(email.as_str());
            if crate::models::contact::string_eq(&ne, &nq) {
                return Some(100);
            }
        }
        let mut i: usize = 0;
        while i < contact.emails.len()
            invariant
                i <= contact.emails@.len(),
                nq@ == norm_email(query_email@),
                forall|k: int|
                    0 <= k < i ==> norm_email(#[trigger] contact@.emails[k]) != norm_email(
                        query_email@,
                    ),
                !(contact@.email matches Some(e) && norm_email(e) == norm_email(query_email@)),
            decreases contact.emails@.len() - i,
        {
            let ne = Self::normalize_email(contact.emails[i].as_str());
            proof {
                assert(contact@.emails[i as int] == contact.emails@[i as int]@);
            }
            if crate::models::contact::string_eq(&ne, &nq) {
                return Some(100);
            }
            i = i + 1;
        }
        None
    }

    /// Match a phone number against the contact's phones; 100 on a hit.
    pub fn match_phone(&self, query_phone: &str, contact: &Contact) -> (r: Option<u8>)
        ensures
            r == if phone_match(query_phone@, contact@) {
                Some(100u8)
            } else {
                None::<u8>
            },
    {
        let nq = Self::normalize_phone(query_phone);
        if let Some(phone) = &contact.phone {
            let np = Self::normalize_phone(phone.as_str());
            if crate::models::contact::string_eq(&np, &nq) {
                return Some(100);
            }
        }
        let mut i: usize = 0;
        while i < contact.phones.len()
            invariant
                i <= contact.phones@.len(),
                nq@ == norm_phone(query_phone@),
                forall|k: int|
                    0 <= k < i ==> norm_phone(#[trigger] contact@.phones[k]) != norm_phone(
                        query_phone@,
                    ),
                !(contact@.phone matches Some(p) && norm_phone(p) == norm_phone(query_phone@)),
            decreases contact.phones@.len() - i,
        {
            let np = Self::normalize_phone(contact.phones[i].as_str());
            proof {
                assert(contact@.phones[i as int] == contact.phones@[i as int]@);
            }
            if crate::models::contact::string_eq(&np, &nq) {
                return Some(100);
            }
            i = i + 1;
        }
        None
    }

    /// Match a social URL against the contact's social profiles; 100 on a
    /// hit.
    pub fn match_social_url(&self, query_url: &str, contact: &Contact) -> (r: Option<u8>)
        ensures
            r == if social_match(query_url@, contact@) {
                Some(100u8)
            } else {
                None::<u8>
            },
    {
        let nq = Self::normalize_url(query_url);
        let mut i: usize = 0;
        while i < contact.social_profiles.len()
            invariant
                i <= contact.social_profiles@.len(),
                nq@ == norm_url(query_url@),
                forall|k: int|
                    0 <= k < i ==> norm_url(#[trigger] contact@.social_profiles[k].url) != norm_url(
                        query_url@,
                    ),
            decreases contact.social_profiles@.len() - i,
        {
            let nu = Self::normalize_url(contact.social_profiles[i].url.as_str());
            proof {
                assert(contact@.social_profiles[i as int] == contact.social_profiles@[
                    i as int]@);
            }
            if crate::models::contact::string_eq(&nu, &nq) {
                assert(norm_url(contact@.social_profiles[i as int].url) == norm_url(query_url@));
                return Some(100);
            }
            i = i + 1;
        }
        None
    }

    /// Fuzzy-match a name; the score when it is positive.
    pub fn fuzzy_match_name(&self, query: &str, contact_name: &str) -> (r: Option<u8>)
        ensures
            r == if name_score(query@, contact_name@) > 0 {
                Some(name_score(query@, contact_name@) as u8)
            } else {
                None::<u8>
            },
            r matches Some(s) ==> 0 < s <= 95,
    {
        let nq = Self::normalize_name(query);
        let nn = Self::normalize_name(contact_name);
        let qv = text::chars_of(nq.as_str());
        let nv = text::chars_of(nn.as_str());
        let score = Self::fuzzy_score_chars(&qv, &nv);
        if score > 0 {
            Some(score)
        } else {
            None
        }
    }

    /// Fuzzy-match a company name; the score when it clears 50.
    pub fn fuzzy_match_company(&self, query: &str, company: &str) -> (r: Option<u8>)
        ensures
            r == if fuzzy_score(norm_name(query@), norm_name(company@)) > 50 {
                Some(fuzzy_score(norm_name(query@), norm_name(company@)) as u8)
            } else {
                None::<u8>
            },
    {
        let nq = Self::normalize_name(query);
        let nc = Self::normalize_name(company);
        let qv = text::chars_of(nq.as_str());
        let cv = text::chars_of(nc.as_str());
        let score = Self::fuzzy_score_chars(&qv, &cv);
        if score > 50 {
            Some(score)
        } else {
            None
        }
    }
}

impl Default for ContactMatcher {
    fn default() -> Self {
        ContactMatcher {  }
    }
}

// ---------------------------------------------------------------------------
// Ranking
// ---------------------------------------------------------------------------
/// `a` comes no later than `b` in the ranking: higher confidence first,
/// ties broken by contact name ascending.
pub open spec fn ranked_le(a: MatchResultView, b: MatchResultView) -> bool {
    a.confidence > b.confidence || (a.confidence == b.confidence && seq_le(
        a.contact.name,
        b.contact.name,
    ))
}

/// A result list is ranked when every pair of entries is in order.
pub open spec fn sorted_ranked(s: Seq<MatchResultView>) -> bool {
    forall|i: int, j: int| 0 <= i < j < s.len() ==> ranked_le(s[i], s[j])
}

/// Any two results are comparable.
pub proof fn lemma_ranked_le_total(a: MatchResultView, b: MatchResultView)
    ensures
        ranked_le(a, b) || ranked_le(b, a),
{
    if a.confidence == b.confidence {
        text::lemma_seq_lt_trichotomy(a.contact.name, b.contact.name);
    }
}

/// The ranking order is transitive.
pub proof fn lemma_ranked_le_trans(a: MatchResultView, b: MatchResultView, c: MatchResultView)
    requires
        ranked_le(a, b),
        ranked_le(b, c),
    ensures
        ranked_le(a, c),
{
    if a.confidence == b.confidence && b.confidence == c.confidence {
        if seq_lt(a.contact.name, b.contact.name) && seq_lt(b.contact.name, c.contact.name) {
            text::lemma_seq_lt_trans(a.contact.name, b.contact.name, c.contact.name);
        }
    }
}

/// Whether `a` comes no later than `b` in the ranking.
fn ranked_le_exec(a: &MatchResult, b: &MatchResult) -> (r: bool)
    ensures
        r == ranked_le(a@, b@),
{
    if a.confidence > b.confidence {
        true
    } else if a.confidence == b.confidence {
        let an = text::chars_of(a.contact.name.as_str());
        let bn = text::chars_of(b.contact.name.as_str());
        let lt_ba = text::chars_lt(&bn, &an);
        proof {
            text::lemma_seq_lt_trichotomy(a@.contact.name, b@.contact.name);
            text::lemma_seq_lt_asym(a@.contact.name, b@.contact.name);
        }
        !lt_ba
    } else {
        false
    }
}

/// Sort match results by descending confidence, ties by name ascending.
fn sort_matches(v: Vec<MatchResult>) -> (r: Vec<MatchResult>)
    ensures
        r.deep_view().to_multiset() == v.deep_view().to_multiset(),
        sorted_ranked(r.deep_view()),
{
    broadcast use vstd::seq_lib::group_to_multiset_ensures;

    let mut rem = v;
    let mut out: Vec<MatchResult> = Vec::new();
    proof {
        assert(out.deep_view() =~= Seq::<MatchResultView>::empty());
        assert(out.deep_view().to_multiset().add(rem.deep_view().to_multiset())
            =~= v.deep_view().to_multiset());
    }
    while rem.len() > 0
        invariant
            out.deep_view().to_multiset().add(rem.deep_view().to_multiset()) == v.deep_view()
                .to_multiset(),
            sorted_ranked(out.deep_view()),
            forall|i: int, j: int|
                0 <= i < out.deep_view().len() && 0 <= j < rem.deep_view().len() ==> ranked_le(
                    #[trigger] out.deep_view()[i],
                    #[trigger] rem.deep_view()[j],
                ),
        decreases rem@.len(),
    {
        // find the entry that comes first
        let mut best: usize = 0;
        let mut k: usize = 1;
        while k < rem.len()
            invariant
                rem@.len() > 0,
                best < k <= rem@.len(),
                forall|t: int|
                    0 <= t < k ==> ranked_le(
                        rem.deep_view()[best as int],
                        #[trigger] rem.deep_view()[t],
                    ),
            decreases rem@.len() - k,
        {
            if ranked_le_exec(&rem[best], &rem[k]) {
                proof {
                    assert(rem.deep_view()[best as int] == rem@[best as int]@);
                    assert(rem.deep_view()[k as int] == rem@[k as int]@);
                }
            } else {
                proof {
                    lemma_ranked_le_total(rem.deep_view()[best as int], rem.deep_view()[k as int]);
                    assert(ranked_le(rem.deep_view()[k as int], rem.deep_view()[best as int]));
                    assert forall|t: int| 0 <= t < k + 1 implies ranked_le(
                        rem.deep_view()[k as int],
                        #[trigger] rem.deep_view()[t],
                    ) by {
                        if t < k {
                            lemma_ranked_le_trans(
                                rem.deep_view()[k as int],
                                rem.deep_view()[best as int],
                                rem.deep_view()[t],
                            );
                        } else {
                            lemma_ranked_le_total(
                                rem.deep_view()[k as int],
                                rem.deep_view()[k as int],
                            );
                        }
                    }
                }
                best = k;
            }
            k = k + 1;
        }
        let ghost old_out_dv = out.deep_view();
        let ghost old_rem_dv = rem.deep_view();
        let ghost m = rem.deep_view()[best as int];
        let picked = rem.remove(best);
        proof {
            old_rem_dv.to_multiset_ensures();
            assert(picked@ == m);
            assert(old_rem_dv[best as int] == m);
            assert(rem.deep_view() =~= old_rem_dv.remove(best as int));
            assert(old_rem_dv.remove(best as int).to_multiset() =~= old_rem_dv.to_multiset()
                .remove(m));
            assert(old_rem_dv.contains(m));
            assert(old_rem_dv.to_multiset().count(m) > 0);
        }
        out.push(picked);
        proof {
            old_out_dv.to_multiset_ensures();
            assert(out.deep_view() =~= old_out_dv.push(m));
            assert(old_out_dv.push(m).to_multiset() =~= old_out_dv.to_multiset().insert(m));
            assert(out.deep_view().to_multiset() == old_out_dv.to_multiset().insert(m));
            assert(out.deep_view().to_multiset().add(rem.deep_view().to_multiset())
                =~= old_out_dv.to_multiset().add(old_rem_dv.to_multiset()));
            // the new last entry is in order after every earlier one, and
            // before everything that remains
            assert forall|i: int, j: int|
                0 <= i < j < out.deep_view().len() implies ranked_le(
                #[trigger] out.deep_view()[i],
                #[trigger] out.deep_view()[j],
            ) by {
                if j < out.deep_view().len() - 1 {
                    assert(ranked_le(old_out_dv[i], old_out_dv[j]));
                } else {
                    assert(ranked_le(old_out_dv[i], m));
                }
            }
            assert forall|i: int, j: int|
                0 <= i < out.deep_view().len() && 0 <= j < rem.deep_view().len() implies ranked_le(
                #[trigger] out.deep_view()[i],
                #[trigger] rem.deep_view()[j],
            ) by {
                let x = rem.deep_view()[j];
                if j < best {
                    assert(x == old_rem_dv[j]);
                } else {
                    assert(x == old_rem_dv[j + 1]);
                }
                if i < out.deep_view().len() - 1 {
                    assert(ranked_le(old_out_dv[i], x));
                } else {
                    assert(ranked_le(m, x));
                }
            }
        }
    }
    proof {
        assert(rem.deep_view() =~= Seq::<MatchResultView>::empty());
        assert(out.deep_view().to_multiset().add(Multiset::<MatchResultView>::empty())
            =~= out.deep_view().to_multiset());
        assert(out.deep_view().to_multiset() =~= v.deep_view().to_multiset());
    }
    out
}

impl ContactMatcher {
    /// Find the contacts that match the query, ranked by confidence
    /// (highest first, ties by name), truncated to `max_results`.
    ///
    /// Per contact the first rule that hits wins: exact email, exact phone,
    /// exact social URL, each with confidence 100 regardless of the
    /// threshold; then fuzzy name matching, kept only at or above
    /// `min_confidence`. The result holds the best-ranked kept matches:
    /// as many as there are, up to `max_results`, and every kept match that
    /// is left out ranks no earlier than any returned one.
    pub fn find_matches(
        &mut self,
        query: &ContactQuery,
        contacts: &Vec<Contact>,
        max_results: usize,
        min_confidence: u8,
    ) -> (r: Vec<MatchResult>)
        ensures
            matches_ok(
                r.deep_view(),
                query@,
                contacts.deep_view(),
                max_results as int,
                min_confidence,
            ),
    {
        broadcast use vstd::seq_lib::group_to_multiset_ensures;

        let ghost q = query@;
        let ghost cdv = contacts.deep_view();
        let ghost minc = min_confidence;
        let mut cand: Vec<MatchResult> = Vec::new();
        let mut i: usize = 0;
        proof {
            assert(cdv.skip(0) =~= cdv);
            assert(cand.deep_view() =~= Seq::<MatchResultView>::empty());
            assert(cand.deep_view() + candidates(q, cdv, minc) =~= candidates(q, cdv, minc));
        }
        while i < contacts.len()
            invariant
                i <= contacts@.len(),
                q == query@,
                minc == min_confidence,
                cdv == contacts.deep_view(),
                candidates(q, cdv, minc) =~= cand.deep_view() + candidates(
                    q,
                    cdv.skip(i as int),
                    minc,
                ),
            decreases contacts@.len() - i,
        {
            let ghost c = cdv[i as int];
            let ghost rest = cdv.skip(i as int);
            proof {
                assert(rest[0] == c);
                assert(rest.skip(1) =~= cdv.skip(i + 1));
                assert(candidates(q, rest, minc) == match contact_kept(q, c, minc) {
                    Some(m) => seq![m] + candidates(q, cdv.skip(i + 1), minc),
                    None => candidates(q, cdv.skip(i + 1), minc),
                });
                assert(contacts@[i as int]@ == c);
            }
            let contact = &contacts[i];
            let ghost before = cand.deep_view();
            let mut matched = false;
            if let Some(email) = &query.email {
                if let Some(confidence) = self.match_email(email.as_str(), contact) {
                    cand.push(
                        MatchResult {
                            contact: contact.clone(),
                            confidence,
                            match_type: MatchType::ExactEmail,
                        },
                    );
                    matched = true;
                }
            }
            if !matched {
                if let Some(phone) = &query.phone {
                    if let Some(confidence) = self.match_phone(phone.as_str(), contact) {
                        cand.push(
                            MatchResult {
                                contact: contact.clone(),
                                confidence,
                                match_type: MatchType::ExactPhone,
                            },
                        );
                        matched = true;
                    }
                }
            }
            if !matched {
                if let Some(social_url) = &query.social_url {
                    if let Some(confidence) = self.match_social_url(social_url.as_str(), contact) {
                        cand.push(
                            MatchResult {
                                contact: contact.clone(),
                                confidence,
                                match_type: MatchType::ExactSocial,
                            },
                        );
                        matched = true;
                    }
                }
            }
            if !matched {
                if let Some(name) = &query.name {
                    if let Some(base) = self.fuzzy_match_name(name.as_str(), contact.name.as_str())
                         {
                        let mut confidence = base;
                        if let (Some(query_company), Some(contact_company)) = (
                            &query.company,
                            &contact.company,
                        ) {
                            if self.fuzzy_match_company(
                                query_company.as_str(),
                                contact_company.as_str(),
                            ).is_some() {
                                confidence = if base + 15 <= 95 {
                                    base + 15
                                } else {
                                    95
                                };
                            }
                        }
                        proof {
                            assert(q.name->0 == name@);
                            assert(c.name == contact@.name);
                            lemma_fuzzy_score_bounds(norm_name(q.name->0), norm_name(c.name));
                            assert(base as int == name_score(q.name->0, c.name));
                            match (&query.company, &contact.company) {
                                (Some(qc), Some(cc)) => {
                                    assert(q.company->0 == qc@);
                                    assert(c.company->0 == cc@);
                                },
                                _ => {},
                            }
                            assert(confidence as int == boosted_name_score(q, c));
                        }
                        if confidence >= min_confidence {
                            cand.push(
                                MatchResult {
                                    contact: contact.clone(),
                                    confidence,
                                    match_type: MatchType::FuzzyName,
                                },
                            );
                        }
                    }
                }
            }
            proof {
                match contact_kept(q, c, minc) {
                    Some(m) => {
                        assert(cand.deep_view() =~= before.push(m));
                        assert(before.push(m) =~= before + seq![m]);
                        assert(candidates(q, cdv, minc) =~= cand.deep_view() + candidates(
                            q,
                            cdv.skip(i + 1),
                            minc,
                        ));
                    },
                    None => {
                        assert(cand.deep_view() =~= before);
                        assert(candidates(q, cdv, minc) =~= cand.deep_view() + candidates(
                            q,
                            cdv.skip(i + 1),
                            minc,
                        ));
                    },
                }
            }
            i = i + 1;
        }
        proof {
            assert(cdv.skip(contacts@.len() as int) =~= Seq::<ContactView>::empty());
            assert(cand.deep_view() =~= candidates(q, cdv, minc));
        }
        let mut sorted = sort_matches(cand);
        let ghost full = sorted.deep_view();
        sorted.truncate(max_results);
        proof {
            let cands = candidates(q, cdv, minc);
            assert(full.to_multiset() == cands.to_multiset());
            assert(full.to_multiset().len() == full.len());
            assert(cands.to_multiset().len() == cands.len());
            if max_results <= full.len() {
                assert(sorted.deep_view() =~= full.take(max_results as int));
                assert(full =~= full.take(max_results as int) + full.skip(max_results as int));
                vstd::seq_lib::lemma_multiset_commutative(
                    full.take(max_results as int),
                    full.skip(max_results as int),
                );
                assert forall|x: MatchResultView|
                    cands.to_multiset().count(x) > sorted.deep_view().to_multiset().count(x)
                        implies (forall|j: int|
                    0 <= j < sorted.deep_view().len() ==> ranked_le(
                        #[trigger] sorted.deep_view()[j],
                        x,
                    )) by {
                    let tail = full.skip(max_results as int);
                    assert(tail.to_multiset().count(x) > 0);
                    assert(tail.contains(x));
                    let t = choose|t: int| 0 <= t < tail.len() && tail[t] == x;
                    assert(full[max_results + t] == x);
                    assert forall|j: int| 0 <= j < sorted.deep_view().len() implies ranked_le(
                        #[trigger] sorted.deep_view()[j],
                        x,
                    ) by {
                        assert(sorted.deep_view()[j] == full[j]);
                        assert(ranked_le(full[j], full[max_results + t]));
                    }
                }
            } else {
                assert(sorted.deep_view() == full);
            }
        }
        sorted
    }
}

// ---------------------------------------------------------------------------
// Ranked-matching laws
// ---------------------------------------------------------------------------
/// A correctly ranked answer to a structured query: as many of the kept
/// candidates as fit, ranked by confidence then name, and nothing ranked
/// worse than what was left out.
pub open spec fn matches_ok(
    out: Seq<MatchResultView>,
    q: ContactQueryView,
    cs: Seq<ContactView>,
    max_results: int,
    min_confidence: u8,
) -> bool {
    let cands = candidates(q, cs, min_confidence);
    &&& out.len() == min_int(max_results, cands.len() as int)
    &&& sorted_ranked(out)
    &&& out.to_multiset().subset_of(cands.to_multiset())
    &&& forall|x: MatchResultView|
        cands.to_multiset().count(x) > out.to_multiset().count(x) ==> (forall|j: int|
            0 <= j < out.len() ==> ranked_le(#[trigger] out[j], x))
}

/// Exact-match supremacy: a query equal to one of a contact's emails makes
/// that contact a kept candidate with confidence exactly 100 and type
/// `ExactEmail`, whatever the threshold; and every returned fuzzy match
/// ranks below every returned exact match, since fuzzy confidence never
/// exceeds 95.
pub proof fn lemma_exact_email_supremacy(
    q: ContactQueryView,
    c: ContactView,
    min_confidence: u8,
)
    requires
        q.email matches Some(e) && email_match(e, c),
    ensures
        contact_kept(q, c, min_confidence) == Some(
            MatchResultView { contact: c, confidence: 100u8, match_type: MatchType::ExactEmail },
        ),
{
}

/// A kept candidate of some contact appears among the kept candidates of
/// any list holding that contact.
proof fn lemma_candidates_contains(
    q: ContactQueryView,
    cs: Seq<ContactView>,
    min_confidence: u8,
    i: int,
)
    requires
        0 <= i < cs.len(),
        contact_kept(q, cs[i], min_confidence) is Some,
    ensures
        candidates(q, cs, min_confidence).contains(contact_kept(q, cs[i], min_confidence)->0),
    decreases cs.len(),
{
    let m = contact_kept(q, cs[i], min_confidence)->0;
    let rest = candidates(q, cs.skip(1), min_confidence);
    if i == 0 {
        assert(candidates(q, cs, min_confidence)[0] == m);
    } else {
        assert(cs.skip(1)[i - 1] == cs[i]);
        lemma_candidates_contains(q, cs.skip(1), min_confidence, i - 1);
        let t = choose|t: int| 0 <= t < rest.len() && rest[t] == m;
        match contact_kept(q, cs[0], min_confidence) {
            Some(m0) => {
                assert(candidates(q, cs, min_confidence)[t + 1] == m);
            },
            None => {
                assert(candidates(q, cs, min_confidence)[t] == m);
            },
        }
    }
}

/// When the result limit does not truncate, the ranked output holds exactly
/// the kept candidates.
pub proof fn lemma_matches_complete(
    out: Seq<MatchResultView>,
    q: ContactQueryView,
    cs: Seq<ContactView>,
    max_results: int,
    min_confidence: u8,
)
    requires
        matches_ok(out, q, cs, max_results, min_confidence),
        max_results >= candidates(q, cs, min_confidence).len(),
    ensures
        out.to_multiset() == candidates(q, cs, min_confidence).to_multiset(),
{
    broadcast use vstd::seq_lib::group_to_multiset_ensures;
    broadcast use vstd::multiset::group_multiset_axioms;

    let mo = out.to_multiset();
    let mc = candidates(q, cs, min_confidence).to_multiset();
    let diff = mc.sub(mo);
    assert(diff.len() == 0);
    vstd::multiset::lemma_multiset_empty_len(diff);
    assert forall|x: MatchResultView| #[trigger] mo.count(x) == mc.count(x) by {
        assert(diff.count(x) == 0);
    }
    assert(mo =~= mc);
}

/// Exact-match supremacy, whole-list form: when the result limit does not
/// truncate, a contact one of whose emails equals the query email after
/// normalisation appears in the output with confidence exactly 100 and type
/// `ExactEmail` — and, by the ranking, ahead of every fuzzy match. Under a
/// smaller limit only the ranking clause can be promised, since truncation
/// may cut any candidate.
pub proof fn lemma_exact_email_in_results(
    out: Seq<MatchResultView>,
    q: ContactQueryView,
    cs: Seq<ContactView>,
    max_results: int,
    min_confidence: u8,
    i: int,
)
    requires
        matches_ok(out, q, cs, max_results, min_confidence),
        max_results >= candidates(q, cs, min_confidence).len(),
        0 <= i < cs.len(),
        q.email matches Some(e) && email_match(e, cs[i]),
    ensures
        out.contains(
            MatchResultView {
                contact: cs[i],
                confidence: 100u8,
                match_type: MatchType::ExactEmail,
            },
        ),
{
    broadcast use vstd::seq_lib::group_to_multiset_ensures;

    let m = MatchResultView { contact: cs[i], confidence: 100u8, match_type: MatchType::ExactEmail };
    lemma_exact_email_supremacy(q, cs[i], min_confidence);
    lemma_candidates_contains(q, cs, min_confidence, i);
    lemma_matches_complete(out, q, cs, max_results, min_confidence);
    assert(candidates(q, cs, min_confidence).to_multiset().count(m) > 0);
    assert(out.to_multiset().count(m) > 0);
}

/// A kept fuzzy-name candidate never reaches confidence 100, so in a ranked
/// result list every exact match stands before every fuzzy match.
pub proof fn lemma_fuzzy_below_exact(q: ContactQueryView, c: ContactView, min_confidence: u8)
    ensures
        contact_kept(q, c, min_confidence) matches Some(m) ==> if m.match_type
            == MatchType::FuzzyName {
            m.confidence <= 95
        } else {
            m.confidence == 100
        },
{
    if contact_kept(q, c, min_confidence) matches Some(m) && m.match_type == MatchType::FuzzyName {
        lemma_fuzzy_score_bounds(norm_name(q.name->0), norm_name(c.name));
    }
}

/// Confidence bounds: every kept candidate carries a confidence between 0
/// and 100 — exactly 100 for the exact field matches, at most 95 for fuzzy
/// name matches.
pub proof fn lemma_candidate_confidence_bounds(
    q: ContactQueryView,
    c: ContactView,
    min_confidence: u8,
)
    ensures
        contact_kept(q, c, min_confidence) matches Some(m) ==> 0 <= m.confidence <= 100,
{
    if contact_kept(q, c, min_confidence) matches Some(m) && m.match_type == MatchType::FuzzyName {
        lemma_fuzzy_score_bounds(norm_name(q.name->0), norm_name(c.name));
    }
}

/// All characters of a filtered-digit sequence are digits, so filtering a
/// second time changes nothing.
proof fn lemma_digits_fixed(s: Seq<char>)
    requires
        forall|k: int| 0 <= k < s.len() ==> is_digit(s[k]),
    ensures
        digits_of(s) == s,
    decreases s.len(),
{
    reveal(Seq::filter);
    if s.len() > 0 {
        assert(forall|k: int| 0 <= k < s.drop_last().len() ==> is_digit(s.drop_last()[k]));
        lemma_digits_fixed(s.drop_last());
        assert(digits_of(s) =~= s.drop_last().push(s.last()));
        assert(s.drop_last().push(s.last()) =~= s);
    } else {
        assert(digits_of(s) =~= s);
    }
}

/// Normalising a phone number twice equals normalising it once.
pub proof fn lemma_normalize_phone_idempotent(s: Seq<char>)
    ensures
        norm_phone(norm_phone(s)) == norm_phone(s),
{
    broadcast use vstd::seq_lib::group_filter_ensures;

    let d = digits_of(s);
    let p = norm_phone(s);
    assert(forall|k: int| 0 <= k < d.len() ==> is_digit(#[trigger] d[k])) by {
        assert(forall|k: int|
            0 <= k < d.len() ==> (|c: char| is_digit(c))(#[trigger] d[k]));
    }
    assert(forall|k: int| 0 <= k < p.len() ==> is_digit(#[trigger] p[k])) by {
        if d.len() > 10 {
            assert(forall|k: int| 0 <= k < p.len() ==> p[k] == d[k + d.len() - 10]);
        }
    }
    lemma_digits_fixed(p);
    assert(p.len() <= 10);
}

/// Threshold monotonicity: raising the confidence threshold never adds
/// candidates, so the kept-candidate list only shrinks.
pub proof fn lemma_threshold_monotonic(
    q: ContactQueryView,
    cs: Seq<ContactView>,
    lo: u8,
    hi: u8,
)
    requires
        lo <= hi,
    ensures
        candidates(q, cs, hi).len() <= candidates(q, cs, lo).len(),
    decreases cs.len(),
{
    if cs.len() > 0 {
        lemma_threshold_monotonic(q, cs.skip(1), lo, hi);
    }
}

} // verus!
