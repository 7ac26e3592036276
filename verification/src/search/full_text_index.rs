//! The full-text search index: one searchable document per indexable field
//! instance of a contact, its notes and its reminders; fuzzy scoring of
//! free-text queries against every document; snippet extraction around the
//! match.

use vstd::prelude::*;
use vstd::multiset::Multiset;
use crate::matching::fuzzy_matcher::{max_int, min_int};
use crate::models::{Contact, ContactView, Note, NoteView, Reminder, ReminderView};
use crate::models::contact::{clone_opt_string, string_eq};
use crate::models::note::{strip_tags, strip_tags_chars};
use crate::text;
use crate::text::{
    contains_at, contains_seq, is_space, join_spaced, lev, lower_of, trim_of, words_of,
};

verus! {

/// Maximum snippet length in characters.
pub const MAX_SNIPPET_LENGTH: usize = 150;

/// Context characters kept before and after a match.
pub const CONTEXT_CHARS: usize = 50;

/// Type of searchable field.
#[derive(Debug, Clone, Copy, PartialEq, Eq, Structural)]
pub enum SearchableField {
    /// Contact name
    Name,
    /// Contact email
    Email,
    /// Contact phone
    Phone,
    /// Contact company
    Company,
    /// Contact job title
    JobTitle,
    /// Note content
    Note,
    /// Reminder content
    Reminder,
}

impl SearchableField {
    /// A short display name for the field type.
    pub fn display_name(&self) -> (r: &'static str)
        ensures
            r@ == display_name_of(*self),
    {
        match self {
            SearchableField::Name => "name",
            SearchableField::Email => "email",
            SearchableField::Phone => "phone",
            SearchableField::Company => "company",
            SearchableField::JobTitle => "job title",
            SearchableField::Note => "note",
            SearchableField::Reminder => "reminder",
        }
    }
}

/// The display name of each field type.
pub open spec fn display_name_of(f: SearchableField) -> Seq<char> {
    match f {
        SearchableField::Name => "name"@,
        SearchableField::Email => "email"@,
        SearchableField::Phone => "phone"@,
        SearchableField::Company => "company"@,
        SearchableField::JobTitle => "job title"@,
        SearchableField::Note => "note"@,
        SearchableField::Reminder => "reminder"@,
    }
}

/// A searchable document extracted from contact data.
pub struct SearchableDocument {
    /// Identifier of the contact the document belongs to
    pub contact_id: String,
    /// Contact name, for display
    pub contact_name: String,
    /// Which field the content came from
    pub field_type: SearchableField,
    /// The searchable text
    pub content: String,
    /// The note or reminder the content came from, if any
    pub item_id: Option<String>,
}

/// The mathematical value of a `SearchableDocument`.
#[verifier::ext_equal]
pub struct DocumentView {
    pub contact_id: Seq<char>,
    pub contact_name: Seq<char>,
    pub field_type: SearchableField,
    pub content: Seq<char>,
    pub item_id: Option<Seq<char>>,
}

impl View for SearchableDocument {
    type V = DocumentView;

    open spec fn view(&self) -> DocumentView {
        DocumentView {
            contact_id: self.contact_id@,
            contact_name: self.contact_name@,
            field_type: self.field_type,
            content: self.content@,
            item_id: self.item_id.deep_view(),
        }
    }
}

impl DeepView for SearchableDocument {
    type V = DocumentView;

    open spec fn deep_view(&self) -> DocumentView {
        self.view()
    }
}

impl Clone for SearchableDocument {
    fn clone(&self) -> (res: Self)
        ensures
            res@ == self@,
    {
        let res = SearchableDocument {
            contact_id: self.contact_id.clone(),
            contact_name: self.contact_name.clone(),
            field_type: self.field_type,
            content: self.content.clone(),
            item_id: clone_opt_string(&self.item_id),
        };
        proof {
            assert(res@ =~= self@);
        }
        res
    }
}

/// A match found in a document, with display context.
pub struct MatchContext {
    /// Which field matched
    pub field_type: SearchableField,
    /// A bounded excerpt around the match
    pub snippet: String,
    /// Confidence score, 0 to 100
    pub confidence: u8,
    /// The note or reminder the match came from, if any
    pub item_id: Option<String>,
}

/// The mathematical value of a `MatchContext`.
#[verifier::ext_equal]
pub struct MatchContextView {
    pub field_type: SearchableField,
    pub snippet: Seq<char>,
    pub confidence: u8,
    pub item_id: Option<Seq<char>>,
}

impl View for MatchContext {
    type V = MatchContextView;

    open spec fn view(&self) -> MatchContextView {
        MatchContextView {
            field_type: self.field_type,
            snippet: self.snippet@,
            confidence: self.confidence,
            item_id: self.item_id.deep_view(),
        }
    }
}

impl DeepView for MatchContext {
    type V = MatchContextView;

    open spec fn deep_view(&self) -> MatchContextView {
        self.view()
    }
}

impl Clone for MatchContext {
    fn clone(&self) -> (res: Self)
        ensures
            res@ == self@,
    {
        let res = MatchContext {
            field_type: self.field_type,
            snippet: self.snippet.clone(),
            confidence: self.confidence,
            item_id: clone_opt_string(&self.item_id),
        };
        proof {
            assert(res@ =~= self@);
        }
        res
    }
}

/// A search result: a contact with all its matches and an overall
/// confidence.
pub struct SearchResult {
    /// The contact
    pub contact: Contact,
    /// All matches found for this contact
    pub matches: Vec<MatchContext>,
    /// Overall confidence, 0 to 100, boosted for multiple matches
    pub confidence: u8,
}

/// The mathematical value of a `SearchResult`.
#[verifier::ext_equal]
pub struct SearchResultView {
    pub contact: ContactView,
    pub matches: Seq<MatchContextView>,
    pub confidence: u8,
}

impl View for SearchResult {
    type V = SearchResultView;

    open spec fn view(&self) -> SearchResultView {
        SearchResultView {
            contact: self.contact@,
            matches: self.matches.deep_view(),
            confidence: self.confidence,
        }
    }
}

impl DeepView for SearchResult {
    type V = SearchResultView;

    open spec fn deep_view(&self) -> SearchResultView {
        self.view()
    }
}

impl Clone for SearchResult {
    fn clone(&self) -> (res: Self)
        ensures
            res@ == self@,
    {
        let mut matches: Vec<MatchContext> = Vec::new();
        let mut i: usize = 0;
        while i < self.matches.len()
            invariant
                i <= self.matches@.len(),
                matches@.len() == i,
                forall|k: int| 0 <= k < i ==> matches@[k]@ == self.matches@[k]@,
            decreases self.matches@.len() - i,
        {
            matches.push(self.matches[i].clone());
            i = i + 1;
        }
        assert(matches.deep_view() =~= self.matches.deep_view());
        let res = SearchResult {
            contact: self.contact.clone(),
            matches,
            confidence: self.confidence,
        };
        proof {
            assert(res@ =~= self@);
        }
        res
    }
}

// ---------------------------------------------------------------------------
// The documents a contact contributes
// ---------------------------------------------------------------------------
/// A document for one field instance of a contact.
pub open spec fn field_doc(c: ContactView, ft: SearchableField, content: Seq<char>) -> DocumentView {
    DocumentView {
        contact_id: c.id,
        contact_name: c.name,
        field_type: ft,
        content: content,
        item_id: None,
    }
}

/// Zero or one documents for an optional field.
pub open spec fn opt_docs(c: ContactView, ft: SearchableField, o: Option<Seq<char>>) -> Seq<
    DocumentView,
> {
    match o {
        Some(x) => seq![field_doc(c, ft, x)],
        None => Seq::empty(),
    }
}

/// One document per list entry.
pub open spec fn list_docs(c: ContactView, ft: SearchableField, xs: Seq<Seq<char>>) -> Seq<
    DocumentView,
> {
    xs.map_values(|x: Seq<char>| field_doc(c, ft, x))
}

/// The documents of the contact's own fields: name, every email, every
/// phone, company and job title.
pub open spec fn contact_docs(c: ContactView) -> Seq<DocumentView> {
    seq![field_doc(c, SearchableField::Name, c.name)] + opt_docs(c, SearchableField::Email, c.email)
        + list_docs(c, SearchableField::Email, c.emails) + opt_docs(
        c,
        SearchableField::Phone,
        c.phone,
    ) + list_docs(c, SearchableField::Phone, c.phones) + opt_docs(
        c,
        SearchableField::Company,
        c.company,
    ) + opt_docs(c, SearchableField::JobTitle, c.title)
}

/// A note's indexed text: HTML tags replaced by spaces, whitespace collapsed,
/// ends trimmed.
pub open spec fn html_text(s: Seq<char>) -> Seq<char> {
    join_spaced(words_of(strip_tags(s)))
}

/// One document per note with non-blank stripped text.
pub open spec fn note_docs(c: ContactView, ns: Seq<NoteView>) -> Seq<DocumentView>
    decreases ns.len(),
{
    if ns.len() == 0 {
        Seq::empty()
    } else {
        let head: Seq<DocumentView> = if html_text(ns[0].content).len() > 0 {
            seq![
                DocumentView {
                    contact_id: c.id,
                    contact_name: c.name,
                    field_type: SearchableField::Note,
                    content: html_text(ns[0].content),
                    item_id: Some(ns[0].id),
                },
            ]
        } else {
            Seq::empty()
        };
        head + note_docs(c, ns.skip(1))
    }
}

/// One document per reminder with non-blank text; the text is indexed as it
/// stands.
pub open spec fn reminder_docs(c: ContactView, rs: Seq<ReminderView>) -> Seq<DocumentView>
    decreases rs.len(),
{
    if rs.len() == 0 {
        Seq::empty()
    } else {
        let head: Seq<DocumentView> = if trim_of(rs[0].text).len() > 0 {
            seq![
                DocumentView {
                    contact_id: c.id,
                    contact_name: c.name,
                    field_type: SearchableField::Reminder,
                    content: rs[0].text,
                    item_id: Some(rs[0].id),
                },
            ]
        } else {
            Seq::empty()
        };
        head + reminder_docs(c, rs.skip(1))
    }
}

/// Everything a contact contributes to the index.
pub open spec fn docs_of_contact(
    c: ContactView,
    ns: Seq<NoteView>,
    rs: Seq<ReminderView>,
) -> Seq<DocumentView> {
    contact_docs(c) + note_docs(c, ns) + reminder_docs(c, rs)
}

/// Strip HTML tags from text: tags are replaced by spaces, whitespace runs
/// collapse to single spaces, and the ends are trimmed.
pub fn strip_html(html: &str) -> (r: String)
    ensures
        r@ == html_text(html@),
{
    let chars = text::chars_of(html);
    let stripped = strip_tags_chars(&chars, true);
    let stripped_str = text::string_from_chars(&stripped);
    let ws = text::split_whitespace_words(stripped_str.as_str());
    let wsv = text::strings_to_char_vecs(&ws);
    let joined = text::join_words(&wsv);
    proof {
        let f = |w: Vec<char>| w@;
        assert(wsv@.map_values(f) =~= words_of(strip_tags(html@)));
    }
    text::string_from_chars(&joined)
}

// ---------------------------------------------------------------------------
// The index
// ---------------------------------------------------------------------------
/// Full-text search index over contacts and their related data.
pub struct FullTextSearchIndex {
    documents: Vec<SearchableDocument>,
}

impl View for FullTextSearchIndex {
    type V = Seq<DocumentView>;

    closed spec fn view(&self) -> Seq<DocumentView> {
        self.documents.deep_view()
    }
}

impl FullTextSearchIndex {
    /// Create a new, empty index.
    pub fn new() -> (r: Self)
        ensures
            r@ == Seq::<DocumentView>::empty(),
    {
        let r = FullTextSearchIndex { documents: Vec::new() };
        proof {
            assert(r@ =~= Seq::<DocumentView>::empty());
        }
        r
    }

    /// Remove every document from the index.
    pub fn clear(&mut self)
        ensures
            final(self)@ == Seq::<DocumentView>::empty(),
    {
        self.documents.clear();
        proof {
            assert(final(self)@ =~= Seq::<DocumentView>::empty());
        }
    }

    /// The number of indexed documents.
    pub fn document_count(&self) -> (r: usize)
        ensures
            r == self@.len(),
    {
        self.documents.len()
    }

    /// Index a contact together with its notes and reminders: one document
    /// per field instance, one per note with non-blank stripped text, one
    /// per reminder with non-blank text. Documents are appended; indexing
    /// the same contact twice duplicates its documents.
    #[verifier::rlimit(60)]
    pub fn index_contact(&mut self, contact: &Contact, notes: &Vec<Note>, reminders: &Vec<Reminder>)
        ensures
            final(self)@ == old(self)@ + docs_of_contact(
                contact@,
                notes.deep_view(),
                reminders.deep_view(),
            ),
    {
        let ghost c = contact@;
        let ghost base = self@;
        let name_doc = SearchableDocument {
            contact_id: contact.id.clone(),
            contact_name: contact.name.clone(),
            field_type: SearchableField::Name,
            content: contact.name.clone(),
            item_id: None,
        };
        proof {
            assert(name_doc@ =~= field_doc(c, SearchableField::Name, c.name));
        }
        self.documents.push(name_doc);
        let ghost after_name = self@;
        proof {
            assert(after_name =~= base + seq![field_doc(c, SearchableField::Name, c.name)]);
        }
        if let Some(email) = &contact.email {
            let doc = SearchableDocument {
                contact_id: contact.id.clone(),
                contact_name: contact.name.clone(),
                field_type: SearchableField::Email,
                content: email.clone(),
                item_id: None,
            };
            proof {
                assert(doc@ =~= field_doc(c, SearchableField::Email, c.email->0));
            }
            self.documents.push(doc);
        }
        proof {
            assert(self@ =~= after_name + opt_docs(c, SearchableField::Email, c.email));
            assert(self@ =~= base + seq![field_doc(c, SearchableField::Name, c.name)] + opt_docs(
                c,
                SearchableField::Email,
                c.email,
            ));
        }
        let ghost base2 = self@;
        let mut i: usize = 0;
        while i < contact.emails.len()
            invariant
                i <= contact.emails@.len(),
                c == contact@,
                self@ =~= base2 + list_docs(c, SearchableField::Email, c.emails.take(i as int)),
            decreases contact.emails@.len() - i,
        {
            let ghost prev = self@;
            let doc = SearchableDocument {
                contact_id: contact.id.clone(),
                contact_name: contact.name.clone(),
                field_type: SearchableField::Email,
                content: contact.emails[i].clone(),
                item_id: None,
            };
            proof {
                assert(c.emails[i as int] == contact.emails@[i as int]@);
                assert(doc@ =~= field_doc(c, SearchableField::Email, c.emails[i as int]));
            }
            self.documents.push(doc);
            proof {
                assert(self@ =~= prev.push(field_doc(c, SearchableField::Email, c.emails[i as int])));
                assert(list_docs(c, SearchableField::Email, c.emails.take(i + 1)) =~= list_docs(
                    c,
                    SearchableField::Email,
                    c.emails.take(i as int),
                ).push(field_doc(c, SearchableField::Email, c.emails[i as int])));
                assert(self@ =~= base2 + list_docs(
                    c,
                    SearchableField::Email,
                    c.emails.take(i + 1),
                ));
            }
            i = i + 1;
        }
        proof {
            assert(c.emails.take(c.emails.len() as int) =~= c.emails);
        }
        let ghost after_emails = self@;
        if let Some(phone) = &contact.phone {
            let doc = SearchableDocument {
                contact_id: contact.id.clone(),
                contact_name: contact.name.clone(),
                field_type: SearchableField::Phone,
                content: phone.clone(),
                item_id: None,
            };
            proof {
                assert(doc@ =~= field_doc(c, SearchableField::Phone, c.phone->0));
            }
            self.documents.push(doc);
        }
        proof {
            assert(self@ =~= after_emails + opt_docs(c, SearchableField::Phone, c.phone));
        }
        let ghost base3 = self@;
        let mut i2: usize = 0;
        while i2 < contact.phones.len()
            invariant
                i2 <= contact.phones@.len(),
                c == contact@,
                self@ =~= base3 + list_docs(c, SearchableField::Phone, c.phones.take(i2 as int)),
            decreases contact.phones@.len() - i2,
        {
            let ghost prev = self@;
            let doc = SearchableDocument {
                contact_id: contact.id.clone(),
                contact_name: contact.name.clone(),
                field_type: SearchableField::Phone,
                content: contact.phones[i2].clone(),
                item_id: None,
            };
            proof {
                assert(c.phones[i2 as int] == contact.phones@[i2 as int]@);
                assert(doc@ =~= field_doc(c, SearchableField::Phone, c.phones[i2 as int]));
            }
            self.documents.push(doc);
            proof {
                assert(self@ =~= prev.push(field_doc(c, SearchableField::Phone, c.phones[i2 as int])));
                assert(list_docs(c, SearchableField::Phone, c.phones.take(i2 + 1)) =~= list_docs(
                    c,
                    SearchableField::Phone,
                    c.phones.take(i2 as int),
                ).push(field_doc(c, SearchableField::Phone, c.phones[i2 as int])));
                assert(self@ =~= base3 + list_docs(
                    c,
                    SearchableField::Phone,
                    c.phones.take(i2 + 1),
                ));
            }
            i2 = i2 + 1;
        }
        proof {
            assert(c.phones.take(c.phones.len() as int) =~= c.phones);
        }
        let ghost after_phones = self@;
        if let Some(company) = &contact.company {
            let doc = SearchableDocument {
                contact_id: contact.id.clone(),
                contact_name: contact.name.clone(),
                field_type: SearchableField::Company,
                content: company.clone(),
                item_id: None,
            };
            proof {
                assert(doc@ =~= field_doc(c, SearchableField::Company, c.company->0));
            }
            self.documents.push(doc);
        }
        proof {
            assert(self@ =~= after_phones + opt_docs(c, SearchableField::Company, c.company));
        }
        let ghost after_company = self@;
        if let Some(title) = &contact.title {
            let doc = SearchableDocument {
                contact_id: contact.id.clone(),
                contact_name: contact.name.clone(),
                field_type: SearchableField::JobTitle,
                content: title.clone(),
                item_id: None,
            };
            proof {
                assert(doc@ =~= field_doc(c, SearchableField::JobTitle, c.title->0));
            }
            self.documents.push(doc);
        }
        proof {
            assert(self@ =~= after_company + opt_docs(c, SearchableField::JobTitle, c.title));
            assert(self@ =~= base + contact_docs(c));
        }
        let ghost base4 = self@;
        let ghost ndv = notes.deep_view();
        proof {
            assert(ndv.skip(0) =~= ndv);
            assert(self@ + note_docs(c, ndv) =~= base4 + note_docs(c, ndv));
        }
        let mut j: usize = 0;
        while j < notes.len()
            invariant
                j <= notes@.len(),
                c == contact@,
                ndv == notes.deep_view(),
                base4 + note_docs(c, ndv) =~= self@ + note_docs(c, ndv.skip(j as int)),
            decreases notes@.len() - j,
        {
            let ghost rest = ndv.skip(j as int);
            proof {
                assert(rest[0] == ndv[j as int]);
                assert(rest.skip(1) =~= ndv.skip(j + 1));
                assert(ndv[j as int] == notes@[j as int]@);
            }
            let plain = strip_html(notes[j].content.as_str());
            if plain.as_str().unicode_len() > 0 {
                self.documents.push(
                    SearchableDocument {
                        contact_id: contact.id.clone(),
                        contact_name: contact.name.clone(),
                        field_type: SearchableField::Note,
                        content: plain,
                        item_id: Some(notes[j].id.clone()),
                    },
                );
            }
            j = j + 1;
        }
        proof {
            assert(ndv.skip(notes@.len() as int) =~= Seq::<NoteView>::empty());
            assert(self@ =~= base4 + note_docs(c, ndv));
        }
        let ghost base5 = self@;
        let ghost rdv = reminders.deep_view();
        proof {
            assert(rdv.skip(0) =~= rdv);
            assert(self@ + reminder_docs(c, rdv) =~= base5 + reminder_docs(c, rdv));
        }
        let mut k: usize = 0;
        while k < reminders.len()
            invariant
                k <= reminders@.len(),
                c == contact@,
                rdv == reminders.deep_view(),
                base5 + reminder_docs(c, rdv) =~= self@ + reminder_docs(c, rdv.skip(k as int)),
            decreases reminders@.len() - k,
        {
            let ghost rest = rdv.skip(k as int);
            proof {
                assert(rest[0] == rdv[k as int]);
                assert(rest.skip(1) =~= rdv.skip(k + 1));
                assert(rdv[k as int] == reminders@[k as int]@);
            }
            let trimmed = text::trim_str(reminders[k].text.as_str());
            if trimmed.unicode_len() > 0 {
                self.documents.push(
                    SearchableDocument {
                        contact_id: contact.id.clone(),
                        contact_name: contact.name.clone(),
                        field_type: SearchableField::Reminder,
                        content: reminders[k].text.clone(),
                        item_id: Some(reminders[k].id.clone()),
                    },
                );
            }
            k = k + 1;
        }
        proof {
            assert(rdv.skip(reminders@.len() as int) =~= Seq::<ReminderView>::empty());
            assert(self@ =~= base5 + reminder_docs(c, rdv));
            assert(self@ =~= base + docs_of_contact(c, ndv, rdv));
        }
    }
}

// ---------------------------------------------------------------------------
// Match confidence
// ---------------------------------------------------------------------------
/// The confidence of a direct substring hit: weighted by how much of the
/// content the query covers, capped at 95. Lengths count Unicode code
/// points, the same currency the edit distance is measured in.
pub open spec fn substring_conf(q: Seq<char>, c: Seq<char>) -> int {
    min_int((85 * (q.len() as int) + 10 * (c.len() as int)) / (c.len() as int), 95)
}

/// The score of one query word against one content word: 85 when the content
/// word contains it, otherwise a scaled Levenshtein similarity, zero when
/// more than forty percent of the characters differ.
pub open spec fn word_score(qw: Seq<char>, cw: Seq<char>) -> int {
    if contains_seq(cw, qw) {
        85
    } else {
        let d = lev(qw, cw);
        let m = max_int(qw.len() as int, cw.len() as int);
        if m > 0 && 5 * d <= 2 * m {
            (75 * (m - d)) / m
        } else {
            0
        }
    }
}

/// The best score of a query word over all content words.
pub open spec fn best_word_score(qw: Seq<char>, cws: Seq<Seq<char>>) -> int
    decreases cws.len(),
{
    if cws.len() == 0 {
        0
    } else {
        max_int(word_score(qw, cws[0]), best_word_score(qw, cws.skip(1)))
    }
}

/// The total of the query words' best scores.
pub open spec fn total_score(qws: Seq<Seq<char>>, cws: Seq<Seq<char>>) -> int
    decreases qws.len(),
{
    if qws.len() == 0 {
        0
    } else {
        best_word_score(qws[0], cws) + total_score(qws.skip(1), cws)
    }
}

/// How many query words scored at all.
pub open spec fn match_count(qws: Seq<Seq<char>>, cws: Seq<Seq<char>>) -> int
    decreases qws.len(),
{
    if qws.len() == 0 {
        0
    } else {
        (if best_word_score(qws[0], cws) > 0 {
            1int
        } else {
            0int
        }) + match_count(qws.skip(1), cws)
    }
}

/// The word-by-word confidence: at least half the query words (rounded up)
/// must score, and the average over all query words is capped at 90.
pub open spec fn words_conf(q: Seq<char>, c: Seq<char>) -> Option<int> {
    let qws = words_of(q);
    let cws = words_of(c);
    if qws.len() == 0 || cws.len() == 0 {
        None
    } else if match_count(qws, cws) >= (qws.len() + 1) / 2 {
        Some(min_int(total_score(qws, cws) / (qws.len() as int), 90))
    } else {
        None
    }
}

/// The confidence of a query against a document content, both lowercased:
/// a substring hit scores by coverage; otherwise the query is matched word
/// by word.
pub open spec fn match_confidence(q: Seq<char>, c: Seq<char>) -> Option<int> {
    if q.len() == 0 || c.len() == 0 {
        None
    } else if contains_seq(c, q) {
        Some(substring_conf(q, c))
    } else {
        words_conf(q, c)
    }
}

/// A word score stays between 0 and 85.
pub proof fn lemma_word_score_bounds(qw: Seq<char>, cw: Seq<char>)
    ensures
        0 <= word_score(qw, cw) <= 85,
{
    if !contains_seq(cw, qw) {
        let d = lev(qw, cw);
        let m = max_int(qw.len() as int, cw.len() as int);
        text::lemma_lev_bounds(qw, cw);
        if m > 0 && 5 * d <= 2 * m {
            assert(0 <= (75 * (m - d)) / m <= 75) by (nonlinear_arith)
                requires
                    0 < m,
                    0 <= d <= m,
            ;
        }
    }
}

/// A best word score stays between 0 and 85.
pub proof fn lemma_best_word_score_bounds(qw: Seq<char>, cws: Seq<Seq<char>>)
    ensures
        0 <= best_word_score(qw, cws) <= 85,
    decreases cws.len(),
{
    if cws.len() > 0 {
        lemma_word_score_bounds(qw, cws[0]);
        lemma_best_word_score_bounds(qw, cws.skip(1));
    }
}

/// Totals stay between 0 and 85 per query word.
pub proof fn lemma_total_score_bounds(qws: Seq<Seq<char>>, cws: Seq<Seq<char>>)
    ensures
        0 <= total_score(qws, cws) <= 85 * qws.len(),
    decreases qws.len(),
{
    if qws.len() > 0 {
        lemma_best_word_score_bounds(qws[0], cws);
        lemma_total_score_bounds(qws.skip(1), cws);
    }
}

/// Every confidence this engine returns stays between 0 and 95; 100 is
/// reserved for exact field matches of the fuzzy matcher.
pub proof fn lemma_match_confidence_bounds(q: Seq<char>, c: Seq<char>)
    ensures
        match_confidence(q, c) matches Some(conf) ==> 0 <= conf <= 95,
{
    if q.len() == 0 || c.len() == 0 {
    } else if contains_seq(c, q) {
        assert((85 * (q.len() as int) + 10 * (c.len() as int)) / (c.len() as int) >= 0)
            by (nonlinear_arith)
            requires
                0 < c.len(),
                0 <= q.len(),
        ;
    } else {
        let qws = words_of(q);
        let cws = words_of(c);
        if qws.len() > 0 && cws.len() > 0 {
            lemma_total_score_bounds(qws, cws);
            assert(total_score(qws, cws) / (qws.len() as int) >= 0) by (nonlinear_arith)
                requires
                    0 < qws.len(),
                    0 <= total_score(qws, cws),
            ;
        }
    }
}

impl FullTextSearchIndex {
    /// The best word-by-word score of one query word over the content words.
    fn best_word_score_exec(qw: &Vec<char>, cws: &Vec<Vec<char>>) -> (r: u8)
        ensures
            r == best_word_score(qw@, cws@.map_values(|w: Vec<char>| w@)),
            r <= 85,
    {
        let ghost m = cws@.map_values(|w: Vec<char>| w@);
        proof {
            lemma_best_word_score_bounds(qw@, m);
        }
        let mut best: u8 = 0;
        let mut k: usize = 0;
        proof {
            assert(m.skip(0) =~= m);
        }
        // best so far, folded from the front: what remains is the tail's best
        while k < cws.len()
            invariant
                k <= cws@.len(),
                m == cws@.map_values(|w: Vec<char>| w@),
                best <= 85,
                best_word_score(qw@, m) == max_int(
                    best as int,
                    best_word_score(qw@, m.skip(k as int)),
                ),
            decreases cws@.len() - k,
        {
            proof {
                assert(m.skip(k as int)[0] == m[k as int]);
                assert(m[k as int] == cws@[k as int]@);
                assert(m.skip(k as int).skip(1) =~= m.skip(k + 1));
                lemma_word_score_bounds(qw@, m[k as int]);
                lemma_best_word_score_bounds(qw@, m.skip(k + 1));
            }
            let s: u8 = if text::contains_chars(&cws[k], qw) {
                85
            } else {
                let d = text::levenshtein_chars(qw, &cws[k]);
                let mlen = if qw.len() >= cws[k].len() {
                    qw.len()
                } else {
                    cws[k].len()
                };
                proof {
                    text::lemma_lev_bounds(qw@, cws@[k as int]@);
                }
                if mlen > 0 && 5 * (d as u128) <= 2 * (mlen as u128) {
                    let sc = (75 * ((mlen - d) as u128)) / (mlen as u128);
                    proof {
                        assert(75 * ((mlen - d) as u128) as int == 75 * (mlen - d));
                        assert(sc as int == (75 * ((mlen as int) - (d as int))) / (mlen as int));
                        assert(0 <= sc as int <= 75) by (nonlinear_arith)
                            requires
                                sc as int == (75 * ((mlen as int) - (d as int))) / (mlen as int),
                                0 < mlen < 0x10000000000000000,
                                0 <= d <= mlen,
                        ;
                    }
                    sc as u8
                } else {
                    0
                }
            };
            proof {
                assert(s as int == word_score(qw@, m[k as int]));
            }
            if s > best {
                best = s;
            }
            k = k + 1;
        }
        proof {
            assert(m.skip(cws@.len() as int) =~= Seq::<Seq<char>>::empty());
        }
        best
    }

    /// The match confidence of a lowercased query against lowercased
    /// content, over character vectors.
    fn match_confidence_chars(q: &Vec<char>, c: &Vec<char>) -> (r: Option<u8>)
        ensures
            match (r, match_confidence(q@, c@)) {
                (Some(rc), Some(sc)) => rc as int == sc,
                (None, None) => true,
                _ => false,
            },
    {
        proof {
            lemma_match_confidence_bounds(q@, c@);
        }
        if q.len() == 0 || c.len() == 0 {
            return None;
        }
        if text::contains_chars(c, q) {
            let num: u128 = 85 * (q.len() as u128) + 10 * (c.len() as u128);
            let den: u128 = c.len() as u128;
            let raw = num / den;
            proof {
                assert(num as int == 85 * (q@.len() as int) + 10 * (c@.len() as int));
                assert(den as int == c@.len() as int);
                assert(raw as int == (85 * (q@.len() as int) + 10 * (c@.len() as int)) / (
                c@.len() as int));
                assert(raw as int >= 0) by (nonlinear_arith)
                    requires
                        raw as int == (85 * (q@.len() as int) + 10 * (c@.len() as int)) / (
                        c@.len() as int),
                        0 < c@.len(),
                        0 <= q@.len(),
                ;
            }
            let conf: u128 = if raw < 95 {
                raw
            } else {
                95
            };
            return Some(conf as u8);
        }
        let q_str = text::string_from_chars(q);
        let c_str = text::string_from_chars(c);
        let qws = text::strings_to_char_vecs(&text::split_whitespace_words(q_str.as_str()));
        let cws = text::strings_to_char_vecs(&text::split_whitespace_words(c_str.as_str()));
        let ghost qm = qws@.map_values(|w: Vec<char>| w@);
        let ghost cm = cws@.map_values(|w: Vec<char>| w@);
        proof {
            assert(qm =~= words_of(q@));
            assert(cm =~= words_of(c@));
        }
        if qws.len() == 0 || cws.len() == 0 {
            return None;
        }
        let mut total: u128 = 0;
        let mut matched: usize = 0;
        let mut k: usize = 0;
        while k < qws.len()
            invariant
                k <= qws@.len(),
                qm == qws@.map_values(|w: Vec<char>| w@),
                cm == cws@.map_values(|w: Vec<char>| w@),
                total == total_score(qm.take(k as int), cm),
                matched == match_count(qm.take(k as int), cm),
                total <= 85 * k,
                matched <= k,
            decreases qws@.len() - k,
        {
            proof {
                lemma_take_step(qm, cm, k as int);
                assert(qm[k as int] == qws@[k as int]@);
                lemma_best_word_score_bounds(qm[k as int], cm);
            }
            let b = Self::best_word_score_exec(&qws[k], &cws);
            if b > 0 {
                total = total + (b as u128);
                matched = matched + 1;
            }
            k = k + 1;
        }
        proof {
            assert(qm.take(qws@.len() as int) =~= qm);
        }
        let half = qws.len() / 2 + qws.len() % 2;
        proof {
            assert(half == (qm.len() + 1) / 2);
        }
        if matched >= half {
            let avg = total / (qws.len() as u128);
            proof {
                lemma_total_score_bounds(qm, cm);
                assert(avg as int == total_score(qm, cm) / (qm.len() as int));
                assert(avg as int >= 0) by (nonlinear_arith)
                    requires
                        avg as int == total_score(qm, cm) / (qm.len() as int),
                        0 < qm.len(),
                        0 <= total_score(qm, cm),
                ;
            }
            let conf: u128 = if avg < 90 {
                avg
            } else {
                90
            };
            Some(conf as u8)
        } else {
            None
        }
    }

    /// The confidence of a query against a content string, both lowercased
    /// by the caller.
    pub fn calculate_match_confidence(&self, query: &str, content: &str) -> (r: Option<u8>)
        ensures
            match (r, match_confidence(query@, content@)) {
                (Some(rc), Some(sc)) => rc as int == sc && rc <= 95,
                (None, None) => true,
                _ => false,
            },
    {
        let q = text::chars_of(query);
        let c = text::chars_of(content);
        let r = Self::match_confidence_chars(&q, &c);
        proof {
            lemma_match_confidence_bounds(query@, content@);
        }
        r
    }
}

/// Totals and counts unfold one query word at a time from the front of a
/// prefix.
proof fn lemma_take_step(qm: Seq<Seq<char>>, cm: Seq<Seq<char>>, k: int)
    requires
        0 <= k < qm.len(),
    ensures
        total_score(qm.take(k + 1), cm) == total_score(qm.take(k), cm) + best_word_score(
            qm[k],
            cm,
        ),
        match_count(qm.take(k + 1), cm) == match_count(qm.take(k), cm) + (if best_word_score(
            qm[k],
            cm,
        ) > 0 {
            1int
        } else {
            0int
        }),
    decreases k,
{
    if k == 0 {
        assert(qm.take(1)[0] == qm[0]);
        assert(qm.take(1).skip(1) =~= Seq::<Seq<char>>::empty());
        assert(qm.take(0) =~= Seq::<Seq<char>>::empty());
    } else {
        // both prefixes start with qm[0]; peel it and recurse on the tail
        let q1 = qm.skip(1);
        lemma_take_step(q1, cm, k - 1);
        assert(qm.take(k + 1)[0] == qm[0]);
        assert(qm.take(k + 1).skip(1) =~= q1.take(k));
        assert(qm.take(k)[0] == qm[0]);
        assert(qm.take(k).skip(1) =~= q1.take(k - 1));
        assert(q1[k - 1] == qm[k]);
    }
}

// ---------------------------------------------------------------------------
// Snippets
// ---------------------------------------------------------------------------
pub open spec fn ellipsis() -> Seq<char> {
    seq!['.', '.', '.']
}

/// The first position at or after `i` where `needle` occurs in `hay`.
pub open spec fn first_match_at(hay: Seq<char>, needle: Seq<char>, i: int) -> Option<int>
    decreases hay.len() - i + 1,
{
    if i < 0 || i + needle.len() > hay.len() {
        None
    } else if contains_at(hay, i, needle) {
        Some(i)
    } else {
        first_match_at(hay, needle, i + 1)
    }
}

/// The first occurrence of `needle` in `hay`.
pub open spec fn find_first(hay: Seq<char>, needle: Seq<char>) -> Option<int> {
    first_match_at(hay, needle, 0)
}

proof fn lemma_first_match_some(hay: Seq<char>, needle: Seq<char>, a: int, i: int)
    requires
        0 <= a <= i,
        contains_at(hay, i, needle),
        forall|j: int| a <= j < i ==> !contains_at(hay, j, needle),
    ensures
        first_match_at(hay, needle, a) == Some(i),
    decreases i - a,
{
    if a < i {
        lemma_first_match_some(hay, needle, a + 1, i);
    }
}

proof fn lemma_first_match_none(hay: Seq<char>, needle: Seq<char>, a: int)
    requires
        0 <= a,
        forall|j: int| !contains_at(hay, j, needle),
    ensures
        first_match_at(hay, needle, a) == None::<int>,
    decreases hay.len() - a + 1,
{
    if a + needle.len() <= hay.len() {
        lemma_first_match_none(hay, needle, a + 1);
    }
}

/// `j` starts a word of `cl`: a non-space character at the start or after a
/// space.
pub open spec fn is_word_start(cl: Seq<char>, j: int) -> bool {
    0 <= j < cl.len() && !is_space(cl[j]) && (j == 0 || is_space(cl[j - 1]))
}

/// The word beginning at position `j`.
pub open spec fn word_at(cl: Seq<char>, j: int) -> Seq<char> {
    cl.subrange(j, j + text::word_len(cl.skip(j)))
}

/// The first word start at or after `a` whose word contains `fw`.
pub open spec fn word_match_at(cl: Seq<char>, fw: Seq<char>, a: int) -> Option<int>
    decreases cl.len() - a + 1,
{
    if a < 0 || a >= cl.len() {
        None
    } else if is_word_start(cl, a) && contains_seq(word_at(cl, a), fw) {
        Some(a)
    } else {
        word_match_at(cl, fw, a + 1)
    }
}

proof fn lemma_word_match_some(cl: Seq<char>, fw: Seq<char>, a: int, j: int)
    requires
        0 <= a <= j,
        is_word_start(cl, j) && contains_seq(word_at(cl, j), fw),
        forall|t: int| a <= t < j ==> !(is_word_start(cl, t) && contains_seq(word_at(cl, t), fw)),
    ensures
        word_match_at(cl, fw, a) == Some(j),
    decreases j - a,
{
    if a < j {
        lemma_word_match_some(cl, fw, a + 1, j);
    }
}

proof fn lemma_word_match_none(cl: Seq<char>, fw: Seq<char>, a: int)
    requires
        0 <= a,
        forall|t: int| !(is_word_start(cl, t) && contains_seq(word_at(cl, t), fw)),
    ensures
        word_match_at(cl, fw, a) == None::<int>,
    decreases cl.len() - a + 1,
{
    if a < cl.len() {
        lemma_word_match_none(cl, fw, a + 1);
    }
}

/// Where the snippet window is anchored: the first occurrence of the query
/// in the lowercased content; failing that, the start of the first content
/// word that contains the first query word (word boundaries here are ASCII
/// whitespace); failing that, the beginning.
pub open spec fn match_pos(cl: Seq<char>, q: Seq<char>) -> int {
    match find_first(cl, q) {
        Some(i) => i,
        None => {
            let fw = if words_of(q).len() > 0 {
                words_of(q)[0]
            } else {
                q
            };
            match word_match_at(cl, fw, 0) {
                Some(j) => j,
                None => 0,
            }
        },
    }
}

/// The anchor stays inside the content.
pub proof fn lemma_match_pos_bounds(cl: Seq<char>, q: Seq<char>)
    ensures
        0 <= match_pos(cl, q) <= cl.len(),
{
    lemma_first_match_bounds(cl, q, 0);
    if find_first(cl, q) is None {
        let fw = if words_of(q).len() > 0 {
            words_of(q)[0]
        } else {
            q
        };
        lemma_word_match_bounds(cl, fw, 0);
    }
}

proof fn lemma_first_match_bounds(hay: Seq<char>, needle: Seq<char>, a: int)
    requires
        0 <= a,
    ensures
        first_match_at(hay, needle, a) matches Some(i) ==> a <= i && i + needle.len() <= hay.len(),
    decreases hay.len() - a + 1,
{
    if a + needle.len() <= hay.len() && !contains_at(hay, a, needle) {
        lemma_first_match_bounds(hay, needle, a + 1);
    }
}

proof fn lemma_word_match_bounds(cl: Seq<char>, fw: Seq<char>, a: int)
    requires
        0 <= a,
    ensures
        word_match_at(cl, fw, a) matches Some(j) ==> a <= j < cl.len(),
    decreases cl.len() - a + 1,
{
    if 0 <= a && a < cl.len() && !(is_word_start(cl, a) && contains_seq(word_at(cl, a), fw)) {
        lemma_word_match_bounds(cl, fw, a + 1);
    }
}

/// The snippet around a match at `pos`: fifty characters of context on each
/// side, ellipses where the window was clamped, hard-truncated to 150
/// characters.
pub open spec fn snippet_of(content: Seq<char>, pos: int, qlen: int) -> Seq<char> {
    let start = if pos > CONTEXT_CHARS {
        pos - CONTEXT_CHARS
    } else {
        0
    };
    let end = min_int(pos + qlen + CONTEXT_CHARS, content.len() as int);
    let w = content.subrange(start, end);
    let w1 = if start > 0 {
        ellipsis() + w
    } else {
        w
    };
    let w2 = if end < content.len() {
        w1 + ellipsis()
    } else {
        w1
    };
    if w2.len() > MAX_SNIPPET_LENGTH {
        w2.take(MAX_SNIPPET_LENGTH - 3) + ellipsis()
    } else {
        w2
    }
}

/// The snippet of a document content for a lowercased query: the anchor is
/// found in the lowercased content and clamped into the original, whose
/// length Unicode lowercasing need not preserve.
pub open spec fn snippet_view(content: Seq<char>, ql: Seq<char>) -> Seq<char> {
    snippet_of(
        content,
        min_int(match_pos(lower_of(content), ql), content.len() as int),
        ql.len() as int,
    )
}

impl FullTextSearchIndex {
    /// Generate a snippet of `original` around the match of `query` in
    /// `content_lower`, the lowercased content.
    pub fn generate_snippet(&self, original: &str, content_lower: &str, query: &str) -> (r: String)
        requires
            content_lower@ == lower_of(original@),
        ensures
            r@ == snippet_view(original@, query@),
    {
        let orig = text::chars_of(original);
        let cl = text::chars_of(content_lower);
        let q = text::chars_of(query);
        proof {
            lemma_match_pos_bounds(cl@, q@);
        }
        let pos: usize = match text::find_sub(&cl, &q) {
            Some(i) => {
                proof {
                    lemma_first_match_some(cl@, q@, 0, i as int);
                }
                i
            },
            None => {
                proof {
                    lemma_first_match_none(cl@, q@, 0);
                }
                let qws = text::split_whitespace_words(query);
                let fw: Vec<char> = if qws.len() > 0 {
                    let w = text::chars_of(qws[0].as_str());
                    proof {
                        assert(words_of(q@)[0] == qws.deep_view()[0]);
                    }
                    assert(w@ == words_of(q@)[0]);
                    w
                } else {
                    let mut w: Vec<char> = Vec::new();
                    let mut p: usize = 0;
                    while p < q.len()
                        invariant
                            p <= q@.len(),
                            w@ == q@.take(p as int),
                        decreases q@.len() - p,
                    {
                        w.push(q[p]);
                        assert(w@ =~= q@.take(p + 1));
                        p = p + 1;
                    }
                    assert(w@ =~= q@);
                    w
                };
                let ghost fws = if words_of(q@).len() > 0 {
                    words_of(q@)[0]
                } else {
                    q@
                };
                assert(fw@ == fws);
                let n = cl.len();
                let mut j: usize = 0;
                let mut found = false;
                while j < n && !found
                    invariant
                        n == cl@.len(),
                        j <= n,
                        fw@ == fws,
                        found ==> is_word_start(cl@, j as int) && contains_seq(
                            word_at(cl@, j as int),
                            fws,
                        ) && j < n,
                        forall|t: int|
                            0 <= t < j ==> !(is_word_start(cl@, t) && contains_seq(
                                word_at(cl@, t),
                                fws,
                            )),
                    decreases n - j + (if found { 0int } else { 1int }),
                {
                    let starts = !text::is_space_exec(cl[j]) && (j == 0 || text::is_space_exec(
                        cl[j - 1],
                    ));
                    if starts {
                        // measure the word beginning here
                        let mut e = j + 1;
                        while e < n && !text::is_space_exec(cl[e])
                            invariant
                                n == cl@.len(),
                                j < e <= n,
                                forall|t: int| j <= t < e ==> !is_space(cl@[t]),
                            decreases n - e,
                        {
                            e = e + 1;
                        }
                        let mut word: Vec<char> = Vec::new();
                        let mut p = j;
                        while p < e
                            invariant
                                j <= p <= e <= cl@.len(),
                                word@ == cl@.subrange(j as int, p as int),
                            decreases e - p,
                        {
                            word.push(cl[p]);
                            assert(word@ =~= cl@.subrange(j as int, p + 1));
                            p = p + 1;
                        }
                        proof {
                            let rest = cl@.skip(j as int);
                            assert(forall|t: int|
                                0 <= t < rest.len() ==> rest[t] == cl@[j + t]);
                            text::lemma_word_len_is(rest, e - j);
                            assert(word@ =~= word_at(cl@, j as int));
                        }
                        if text::contains_chars(&word, &fw) {
                            found = true;
                        } else {
                            j = j + 1;
                        }
                    } else {
                        j = j + 1;
                    }
                }
                if found {
                    proof {
                        lemma_word_match_some(cl@, fws, 0, j as int);
                    }
                    j
                } else {
                    proof {
                        lemma_word_match_none(cl@, fws, 0);
                    }
                    0
                }
            },
        };
        assert(pos as int == match_pos(cl@, q@));
        // Unicode lowercasing need not keep the length, so the anchor found
        // in the lowercased text is clamped into the original
        let n = orig.len();
        let pos: usize = if pos > n {
            n
        } else {
            pos
        };
        assert(pos as int == min_int(match_pos(cl@, q@), orig@.len() as int));
        let qlen = q.len();
        let start: usize = if pos > CONTEXT_CHARS {
            pos - CONTEXT_CHARS
        } else {
            0
        };
        let end128: u128 = pos as u128 + qlen as u128 + CONTEXT_CHARS as u128;
        let end: usize = if end128 >= n as u128 {
            n
        } else {
            end128 as usize
        };
        proof {
            assert(end as int == min_int(pos + qlen + CONTEXT_CHARS, orig@.len() as int));
        }
        let mut snip: Vec<char> = Vec::new();
        if start > 0 {
            snip.push('.');
            snip.push('.');
            snip.push('.');
        }
        let ghost lead = snip@;
        proof {
            if start > 0 {
                assert(lead =~= ellipsis());
            } else {
                assert(lead =~= Seq::<char>::empty());
            }
        }
        let mut p = start;
        while p < end
            invariant
                start <= p <= end <= orig@.len(),
                snip@ == lead + orig@.subrange(start as int, p as int),
            decreases end - p,
        {
            snip.push(orig[p]);
            assert(snip@ =~= lead + orig@.subrange(start as int, p + 1));
            p = p + 1;
        }
        if end < n {
            snip.push('.');
            snip.push('.');
            snip.push('.');
        }
        proof {
            let w = orig@.subrange(start as int, end as int);
            let w1 = if start > 0 {
                ellipsis() + w
            } else {
                w
            };
            let w2 = if end < orig@.len() {
                w1 + ellipsis()
            } else {
                w1
            };
            assert(snip@ =~= w2);
        }
        if snip.len() > MAX_SNIPPET_LENGTH {
            let ghost w2 = snip@;
            snip.truncate(MAX_SNIPPET_LENGTH - 3);
            assert(snip@ =~= w2.take(MAX_SNIPPET_LENGTH - 3));
            snip.push('.');
            snip.push('.');
            snip.push('.');
            assert(snip@ =~= w2.take(MAX_SNIPPET_LENGTH - 3) + ellipsis());
        }
        text::string_from_chars(&snip)
    }
}

// ---------------------------------------------------------------------------
// Searching the index
// ---------------------------------------------------------------------------
/// What a document contributes for a lowercased query: its confidence and a
/// snippet, when it matches at all.
pub open spec fn doc_match(d: DocumentView, ql: Seq<char>) -> Option<MatchContextView> {
    match match_confidence(ql, lower_of(d.content)) {
        Some(conf) => Some(
            MatchContextView {
                field_type: d.field_type,
                snippet: snippet_view(d.content, ql),
                confidence: conf as u8,
                item_id: d.item_id,
            },
        ),
        None => None,
    }
}

/// A document's match that clears the confidence threshold.
pub open spec fn doc_kept(d: DocumentView, ql: Seq<char>, min_confidence: u8) -> Option<
    MatchContextView,
> {
    match doc_match(d, ql) {
        Some(mc) => if mc.confidence >= min_confidence {
            Some(mc)
        } else {
            None
        },
        None => None,
    }
}

/// The contact ids with at least one kept match, in the order their first
/// match appears in the document list.
pub open spec fn matching_ids(docs: Seq<DocumentView>, ql: Seq<char>, min_confidence: u8) -> Seq<
    Seq<char>,
>
    decreases docs.len(),
{
    if docs.len() == 0 {
        Seq::empty()
    } else {
        let prev = matching_ids(docs.drop_last(), ql, min_confidence);
        if doc_kept(docs.last(), ql, min_confidence) is Some && !prev.contains(
            docs.last().contact_id,
        ) {
            prev.push(docs.last().contact_id)
        } else {
            prev
        }
    }
}

/// The kept matches of one contact, in document order.
pub open spec fn contact_matches(
    docs: Seq<DocumentView>,
    ql: Seq<char>,
    min_confidence: u8,
    cid: Seq<char>,
) -> Seq<MatchContextView>
    decreases docs.len(),
{
    if docs.len() == 0 {
        Seq::empty()
    } else {
        let prev = contact_matches(docs.drop_last(), ql, min_confidence, cid);
        match doc_kept(docs.last(), ql, min_confidence) {
            Some(mc) => if docs.last().contact_id == cid {
                prev.push(mc)
            } else {
                prev
            },
            None => prev,
        }
    }
}

/// The best per-match confidence of a group.
pub open spec fn max_conf(ms: Seq<MatchContextView>) -> int
    decreases ms.len(),
{
    if ms.len() == 0 {
        0
    } else {
        max_int(ms.last().confidence as int, max_conf(ms.drop_last()))
    }
}

/// The overall confidence of a contact: its best match plus five points per
/// additional corroborating match, the boost capped at fifteen and the total
/// at one hundred.
pub open spec fn group_conf(ms: Seq<MatchContextView>) -> int {
    min_int(max_conf(ms) + min_int(5 * max_int(ms.len() - 1, 0), 15), 100)
}

/// The first contact with the given id, if any.
pub open spec fn lookup_contact(cs: Seq<ContactView>, cid: Seq<char>) -> Option<ContactView>
    decreases cs.len(),
{
    if cs.len() == 0 {
        None
    } else if cs[0].id == cid {
        Some(cs[0])
    } else {
        lookup_contact(cs.skip(1), cid)
    }
}

/// The search results before ranking: one per matching contact id that
/// resolves in the snapshot and clears the threshold, in first-match order.
pub open spec fn results_for_ids(
    ids: Seq<Seq<char>>,
    docs: Seq<DocumentView>,
    cs: Seq<ContactView>,
    ql: Seq<char>,
    min_confidence: u8,
) -> Seq<SearchResultView>
    decreases ids.len(),
{
    if ids.len() == 0 {
        Seq::empty()
    } else {
        let ms = contact_matches(docs, ql, min_confidence, ids[0]);
        let head: Seq<SearchResultView> = match lookup_contact(cs, ids[0]) {
            Some(c) => if group_conf(ms) >= min_confidence {
                seq![
                    SearchResultView { contact: c, matches: ms, confidence: group_conf(ms) as u8 },
                ]
            } else {
                Seq::empty()
            },
            None => Seq::empty(),
        };
        head + results_for_ids(ids.skip(1), docs, cs, ql, min_confidence)
    }
}

/// Everything a search returns before ranking and truncation.
pub open spec fn search_results(
    docs: Seq<DocumentView>,
    cs: Seq<ContactView>,
    ql: Seq<char>,
    min_confidence: u8,
) -> Seq<SearchResultView> {
    results_for_ids(matching_ids(docs, ql, min_confidence), docs, cs, ql, min_confidence)
}

/// Results are ranked by confidence alone, highest first.
pub open spec fn result_le(a: SearchResultView, b: SearchResultView) -> bool {
    a.confidence >= b.confidence
}

pub open spec fn sorted_results(s: Seq<SearchResultView>) -> bool {
    forall|i: int, j: int| 0 <= i < j < s.len() ==> result_le(s[i], s[j])
}

/// A correctly ranked answer to a free-text query: as many of the
/// qualifying contacts as fit, ranked by confidence, and nothing ranked
/// worse than what was left out.
pub open spec fn results_ok(
    out: Seq<SearchResultView>,
    docs: Seq<DocumentView>,
    cs: Seq<ContactView>,
    ql: Seq<char>,
    max_results: int,
    min_confidence: u8,
) -> bool {
    let rs = search_results(docs, cs, ql, min_confidence);
    &&& out.len() == min_int(max_results, rs.len() as int)
    &&& sorted_results(out)
    &&& out.to_multiset().subset_of(rs.to_multiset())
    &&& forall|x: SearchResultView|
        rs.to_multiset().count(x) > out.to_multiset().count(x) ==> (forall|j: int|
            0 <= j < out.len() ==> result_le(#[trigger] out[j], x))
}

// ---------------------------------------------------------------------------
// Search
// ---------------------------------------------------------------------------
/// Ids never repeat in `matching_ids`.
proof fn lemma_matching_ids_distinct(docs: Seq<DocumentView>, ql: Seq<char>, min_confidence: u8)
    ensures
        forall|k1: int, k2: int|
            0 <= k1 < k2 < matching_ids(docs, ql, min_confidence).len() ==> matching_ids(
                docs,
                ql,
                min_confidence,
            )[k1] != matching_ids(docs, ql, min_confidence)[k2],
    decreases docs.len(),
{
    if docs.len() > 0 {
        lemma_matching_ids_distinct(docs.drop_last(), ql, min_confidence);
        let prev = matching_ids(docs.drop_last(), ql, min_confidence);
        let cur = matching_ids(docs, ql, min_confidence);
        if cur.len() == prev.len() + 1 {
            assert(!prev.contains(docs.last().contact_id));
            assert(forall|k: int| 0 <= k < prev.len() ==> cur[k] == prev[k]);
            assert(cur.last() == docs.last().contact_id);
        }
    }
}

/// A contact id outside `matching_ids` has no kept matches.
proof fn lemma_no_id_no_matches(
    docs: Seq<DocumentView>,
    ql: Seq<char>,
    min_confidence: u8,
    cid: Seq<char>,
)
    requires
        !matching_ids(docs, ql, min_confidence).contains(cid),
    ensures
        contact_matches(docs, ql, min_confidence, cid) == Seq::<MatchContextView>::empty(),
    decreases docs.len(),
{
    if docs.len() > 0 {
        let prev_ids = matching_ids(docs.drop_last(), ql, min_confidence);
        let cur = matching_ids(docs, ql, min_confidence);
        assert(!prev_ids.contains(cid)) by {
            if prev_ids.contains(cid) {
                let t = choose|t: int| 0 <= t < prev_ids.len() && prev_ids[t] == cid;
                if cur.len() == prev_ids.len() + 1 {
                    assert(cur[t] == cid);
                } else {
                    assert(cur[t] == cid);
                }
            }
        }
        lemma_no_id_no_matches(docs.drop_last(), ql, min_confidence, cid);
        if doc_kept(docs.last(), ql, min_confidence) is Some && docs.last().contact_id == cid {
            if !prev_ids.contains(cid) {
                assert(cur.last() == cid);
                assert(cur.contains(cid));
            }
            assert(false);
        }
    }
}

/// Clone a list of match contexts, keeping its value.
fn clone_matches(v: &Vec<MatchContext>) -> (r: Vec<MatchContext>)
    ensures
        r.deep_view() == v.deep_view(),
{
    let mut r: Vec<MatchContext> = Vec::new();
    let mut i: usize = 0;
    while i < v.len()
        invariant
            i <= v@.len(),
            r@.len() == i,
            forall|k: int| 0 <= k < i ==> r@[k]@ == v@[k]@,
        decreases v@.len() - i,
    {
        r.push(v[i].clone());
        i = i + 1;
    }
    assert(r.deep_view() =~= v.deep_view());
    r
}

/// Sort search results by descending confidence.
fn sort_results(v: Vec<SearchResult>) -> (r: Vec<SearchResult>)
    ensures
        r.deep_view().to_multiset() == v.deep_view().to_multiset(),
        sorted_results(r.deep_view()),
{
    broadcast use vstd::seq_lib::group_to_multiset_ensures;

    let mut rem = v;
    let mut out: Vec<SearchResult> = Vec::new();
    proof {
        assert(out.deep_view() =~= Seq::<SearchResultView>::empty());
        assert(out.deep_view().to_multiset().add(rem.deep_view().to_multiset())
            =~= v.deep_view().to_multiset());
    }
    while rem.len() > 0
        invariant
            out.deep_view().to_multiset().add(rem.deep_view().to_multiset()) == v.deep_view()
                .to_multiset(),
            sorted_results(out.deep_view()),
            forall|i: int, j: int|
                0 <= i < out.deep_view().len() && 0 <= j < rem.deep_view().len() ==> result_le(
                    #[trigger] out.deep_view()[i],
                    #[trigger] rem.deep_view()[j],
                ),
        decreases rem@.len(),
    {
        let mut best: usize = 0;
        let mut k: usize = 1;
        while k < rem.len()
            invariant
                rem@.len() > 0,
                best < k <= rem@.len(),
                forall|t: int|
                    0 <= t < k ==> result_le(
                        rem.deep_view()[best as int],
                        #[trigger] rem.deep_view()[t],
                    ),
            decreases rem@.len() - k,
        {
            if rem[k].confidence > rem[best].confidence {
                proof {
                    assert(rem.deep_view()[k as int] == rem@[k as int]@);
                    assert(forall|t: int|
                        0 <= t < k + 1 ==> result_le(
                            rem.deep_view()[k as int],
                            #[trigger] rem.deep_view()[t],
                        ));
                }
                best = k;
            } else {
                proof {
                    assert(rem.deep_view()[best as int] == rem@[best as int]@);
                    assert(rem.deep_view()[k as int] == rem@[k as int]@);
                }
            }
            k = k + 1;
        }
        let ghost old_out_dv = out.deep_view();
        let ghost old_rem_dv = rem.deep_view();
        let ghost m = rem.deep_view()[best as int];
        let picked = rem.remove(best);
        proof {
            old_rem_dv.to_multiset_ensures();
            assert(picked@ == m);
            assert(old_rem_dv[best as int] == m);
            assert(rem.deep_view() =~= old_rem_dv.remove(best as int));
            assert(old_rem_dv.remove(best as int).to_multiset() =~= old_rem_dv.to_multiset()
                .remove(m));
            assert(old_rem_dv.contains(m));
            assert(old_rem_dv.to_multiset().count(m) > 0);
        }
        out.push(picked);
        proof {
            old_out_dv.to_multiset_ensures();
            assert(out.deep_view() =~= old_out_dv.push(m));
            assert(old_out_dv.push(m).to_multiset() =~= old_out_dv.to_multiset().insert(m));
            assert(out.deep_view().to_multiset().add(rem.deep_view().to_multiset())
                =~= old_out_dv.to_multiset().add(old_rem_dv.to_multiset()));
            assert forall|i: int, j: int|
                0 <= i < j < out.deep_view().len() implies result_le(
                #[trigger] out.deep_view()[i],
                #[trigger] out.deep_view()[j],
            ) by {
                if j < out.deep_view().len() - 1 {
                    assert(result_le(old_out_dv[i], old_out_dv[j]));
                } else {
                    assert(result_le(old_out_dv[i], m));
                }
            }
            assert forall|i: int, j: int|
                0 <= i < out.deep_view().len() && 0 <= j < rem.deep_view().len() implies result_le(
                #[trigger] out.deep_view()[i],
                #[trigger] rem.deep_view()[j],
            ) by {
                let x = rem.deep_view()[j];
                if j < best {
                    assert(x == old_rem_dv[j]);
                } else {
                    assert(x == old_rem_dv[j + 1]);
                }
                if i < out.deep_view().len() - 1 {
                    assert(result_le(old_out_dv[i], x));
                } else {
                    assert(result_le(m, x));
                }
            }
        }
    }
    proof {
        assert(rem.deep_view() =~= Seq::<SearchResultView>::empty());
        assert(out.deep_view().to_multiset().add(Multiset::<SearchResultView>::empty())
            =~= out.deep_view().to_multiset());
        assert(out.deep_view().to_multiset() =~= v.deep_view().to_multiset());
    }
    out
}

impl FullTextSearchIndex {
    /// What a document contributes for a lowercased query: the confidence of
    /// the match and a snippet around it.
    pub fn find_match(&self, doc: &SearchableDocument, query_lower: &str) -> (r: Option<
        MatchContext,
    >)
        ensures
            match (r, doc_match(doc@, query_lower@)) {
                (Some(a), Some(b)) => a@ == b,
                (None, None) => true,
                _ => false,
            },
    {
        let content_lower_str = text::to_lowercase(doc.content.as_str());
        let lowered = text::chars_of(content_lower_str.as_str());
        let ql = text::chars_of(query_lower);
        match Self::match_confidence_chars(&ql, &lowered) {
            Some(confidence) => {
                let snippet = self.generate_snippet(
                    doc.content.as_str(),
                    content_lower_str.as_str(),
                    query_lower,
                );
                let mc = MatchContext {
                    field_type: doc.field_type,
                    snippet,
                    confidence,
                    item_id: clone_opt_string(&doc.item_id),
                };
                proof {
                    assert(mc@ =~= doc_match(doc@, query_lower@)->0);
                }
                Some(mc)
            },
            None => None,
        }
    }

    /// Search the index for a free-text query: score every document against
    /// the lowercased query, group the kept matches by contact, boost
    /// contacts with several matches, resolve them in the given snapshot and
    /// return the best, ranked by confidence and truncated to `max_results`.
    /// Matching contacts missing from the snapshot are silently dropped.
    #[verifier::rlimit(60)]
    pub fn search(
        &self,
        contacts: &Vec<Contact>,
        query: &str,
        max_results: usize,
        min_confidence: u8,
    ) -> (r: Vec<SearchResult>)
        ensures
            results_ok(
                r.deep_view(),
                self@,
                contacts.deep_view(),
                lower_of(query@),
                max_results as int,
                min_confidence,
            ),
    {
        broadcast use vstd::seq_lib::group_to_multiset_ensures;

        let query_lower = text::to_lowercase(query);
        let ghost ql = lower_of(query@);
        let ghost dv = self@;
        let ghost cdv = contacts.deep_view();
        let ghost minc = min_confidence;
        let n = self.documents.len();
        let mut ids: Vec<String> = Vec::new();
        let mut groups: Vec<Vec<MatchContext>> = Vec::new();
        let mut i: usize = 0;
        proof {
            assert(dv.take(0) =~= Seq::<DocumentView>::empty());
            assert(ids.deep_view() =~= matching_ids(dv.take(0), ql, minc));
        }
        while i < n
            invariant
                n == dv.len(),
                dv == self@,
                ql == lower_of(query@),
                query_lower@ == ql,
                minc == min_confidence,
                i <= n,
                ids.deep_view() == matching_ids(dv.take(i as int), ql, minc),
                groups@.len() == ids@.len(),
                forall|k: int|
                    0 <= k < groups@.len() ==> (#[trigger] groups@[k]).deep_view()
                        == contact_matches(dv.take(i as int), ql, minc, ids.deep_view()[k]),
                forall|k1: int, k2: int|
                    0 <= k1 < k2 < ids.deep_view().len() ==> ids.deep_view()[k1]
                        != ids.deep_view()[k2],
            decreases n - i,
        {
            let ghost d = dv[i as int];
            proof {
                assert(dv.take(i + 1).drop_last() =~= dv.take(i as int));
                assert(dv.take(i + 1).last() == d);
                assert(self.documents@[i as int]@ == d);
            }
            let doc = &self.documents[i];
            let kept: Option<MatchContext> = match self.find_match(doc, query_lower.as_str()) {
                Some(mc) => {
                    if mc.confidence >= min_confidence {
                        Some(mc)
                    } else {
                        None
                    }
                },
                None => None,
            };
            let ghost old_ids = ids.deep_view();
            let ghost old_groups = groups@;
            match kept {
                Some(mc) => {
                    proof {
                        assert(doc_kept(d, ql, minc) == Some(mc@));
                    }
                    // find this contact's group, if it already has one
                    let mut t: usize = 0;
                    let mut found = false;
                    while t < ids.len() && !found
                        invariant
                            t <= ids@.len(),
                            found ==> t < ids@.len() && ids.deep_view()[t as int] == d.contact_id,
                            !found ==> forall|u: int|
                                0 <= u < t ==> ids.deep_view()[u] != d.contact_id,
                            d == dv[i as int],
                            doc@ == d,
                            i < n,
                            n == dv.len(),
                            dv == self@,
                            ids.deep_view() == old_ids,
                        decreases ids@.len() - t + (if found { 0int } else { 1int }),
                    {
                        proof {
                            assert(ids.deep_view()[t as int] == ids@[t as int]@);
                            assert(doc.contact_id@ == d.contact_id);
                        }
                        if string_eq(&ids[t], &doc.contact_id) {
                            found = true;
                        } else {
                            t = t + 1;
                        }
                    }
                    if found {
                        let mut g = groups.remove(t);
                        g.push(mc);
                        groups.insert(t, g);
                        proof {
                            assert(groups@ =~= old_groups.update(t as int, groups@[t as int]));
                            assert(matching_ids(dv.take(i + 1), ql, minc) =~= old_ids);
                            assert forall|k: int| 0 <= k < groups@.len() implies (
                            #[trigger] groups@[k]).deep_view() == contact_matches(
                                dv.take(i + 1),
                                ql,
                                minc,
                                ids.deep_view()[k],
                            ) by {
                                if k == t {
                                    assert(groups@[k].deep_view() =~= old_groups[k].deep_view()
                                        .push(mc@));
                                } else {
                                    assert(ids.deep_view()[k] != d.contact_id);
                                    assert(groups@[k] == old_groups[k]);
                                }
                            }
                        }
                    } else {
                        proof {
                            assert(forall|u: int|
                                0 <= u < old_ids.len() ==> old_ids[u] != d.contact_id);
                            assert(!old_ids.contains(d.contact_id));
                        }
                        ids.push(doc.contact_id.clone());
                        let mut g: Vec<MatchContext> = Vec::new();
                        g.push(mc);
                        groups.push(g);
                        proof {
                            assert(ids.deep_view() =~= old_ids.push(d.contact_id));
                            assert(matching_ids(dv.take(i + 1), ql, minc) =~= ids.deep_view());
                            lemma_no_id_no_matches(dv.take(i as int), ql, minc, d.contact_id);
                            assert forall|k: int| 0 <= k < groups@.len() implies (
                            #[trigger] groups@[k]).deep_view() == contact_matches(
                                dv.take(i + 1),
                                ql,
                                minc,
                                ids.deep_view()[k],
                            ) by {
                                if k < groups@.len() - 1 {
                                    assert(groups@[k] == old_groups[k]);
                                    assert(ids.deep_view()[k] == old_ids[k]);
                                    assert(old_ids.contains(old_ids[k]));
                                    assert(ids.deep_view()[k] != d.contact_id);
                                } else {
                                    assert(groups@[k].deep_view() =~= Seq::<
                                        MatchContextView,
                                    >::empty().push(mc@));
                                    assert(contact_matches(dv.take(i + 1), ql, minc, d.contact_id)
                                        =~= Seq::<MatchContextView>::empty().push(mc@));
                                }
                            }
                        }
                    }
                },
                None => {
                    proof {
                        assert(doc_kept(d, ql, minc) is None);
                        assert(matching_ids(dv.take(i + 1), ql, minc) == old_ids);
                        assert(forall|k: int|
                            0 <= k < groups@.len() ==> contact_matches(
                                dv.take(i + 1),
                                ql,
                                minc,
                                ids.deep_view()[k],
                            ) == contact_matches(dv.take(i as int), ql, minc, ids.deep_view()[k]));
                    }
                },
            }
            i = i + 1;
        }
        proof {
            assert(dv.take(n as int) =~= dv);
        }
        // one result per matching contact that resolves in the snapshot
        let ghost all_ids = ids.deep_view();
        let mut results: Vec<SearchResult> = Vec::new();
        let mut k: usize = 0;
        proof {
            assert(all_ids.skip(0) =~= all_ids);
            assert(results.deep_view() + results_for_ids(all_ids, dv, cdv, ql, minc)
                =~= search_results(dv, cdv, ql, minc));
        }
        while k < ids.len()
            invariant
                k <= ids@.len(),
                dv == self@,
                cdv == contacts.deep_view(),
                ql == lower_of(query@),
                minc == min_confidence,
                all_ids == ids.deep_view(),
                groups@.len() == ids@.len(),
                forall|t: int|
                    0 <= t < groups@.len() ==> (#[trigger] groups@[t]).deep_view()
                        == contact_matches(dv, ql, minc, all_ids[t]),
                search_results(dv, cdv, ql, minc) =~= results.deep_view() + results_for_ids(
                    all_ids.skip(k as int),
                    dv,
                    cdv,
                    ql,
                    minc,
                ),
            decreases ids@.len() - k,
        {
            let ghost cid = all_ids[k as int];
            let ghost ms = contact_matches(dv, ql, minc, cid);
            proof {
                assert(all_ids.skip(k as int)[0] == cid);
                assert(all_ids.skip(k as int).skip(1) =~= all_ids.skip(k + 1));
                assert(ids@[k as int]@ == cid);
                assert(groups@[k as int].deep_view() == ms);
            }
            // best per-match confidence of the group
            let group = &groups[k];
            let mut maxc: u8 = 0;
            let mut p: usize = 0;
            while p < group.len()
                invariant
                    p <= group@.len(),
                    group.deep_view() == ms,
                    maxc as int == max_conf(ms.take(p as int)),
                decreases group@.len() - p,
            {
                proof {
                    assert(ms.take(p + 1).drop_last() =~= ms.take(p as int));
                    assert(ms.take(p + 1).last() == ms[p as int]);
                    assert(group@[p as int]@ == ms[p as int]);
                }
                if group[p].confidence > maxc {
                    maxc = group[p].confidence;
                }
                p = p + 1;
            }
            proof {
                assert(ms.take(group@.len() as int) =~= ms);
            }
            // multi-match boost, five per extra match, at most fifteen
            let glen = group.len();
            let boost: usize = if glen >= 4 {
                15
            } else if glen >= 1 {
                (glen - 1) * 5
            } else {
                0
            };
            proof {
                assert(boost as int == min_int(5 * max_int(ms.len() - 1, 0), 15));
            }
            let total: usize = maxc as usize + boost;
            let overall: u8 = if total >= 100 {
                100
            } else {
                total as u8
            };
            proof {
                lemma_max_conf_bounds(ms);
                assert(overall as int == group_conf(ms));
            }
            // resolve the contact in the snapshot
            let mut ci: usize = 0;
            let mut found: Option<usize> = None;
            while ci < contacts.len() && found.is_none()
                invariant
                    ci <= contacts@.len(),
                    cdv == contacts.deep_view(),
                    cid == all_ids[k as int],
                    k < ids@.len(),
                    ids@[k as int]@ == cid,
                    match found {
                        Some(f) => f < contacts@.len() && cdv[f as int].id == cid && (forall|
                            u: int,
                        | 0 <= u < f ==> cdv[u].id != cid) && ci <= f + 1,
                        None => forall|u: int| 0 <= u < ci ==> cdv[u].id != cid,
                    },
                decreases contacts@.len() - ci + (if found.is_none() { 1int } else { 0int }),
            {
                proof {
                    assert(cdv[ci as int] == contacts@[ci as int]@);
                }
                if string_eq(&contacts[ci].id, &ids[k]) {
                    found = Some(ci);
                } else {
                    ci = ci + 1;
                }
            }
            let ghost old_results = results.deep_view();
            match found {
                Some(f) => {
                    proof {
                        lemma_lookup_contact(cdv, cid, f as int);
                    }
                    if overall >= min_confidence {
                        let sr = SearchResult {
                            contact: contacts[f].clone(),
                            matches: clone_matches(&groups[k]),
                            confidence: overall,
                        };
                        proof {
                            assert(sr@ =~= SearchResultView {
                                contact: cdv[f as int],
                                matches: ms,
                                confidence: group_conf(ms) as u8,
                            });
                        }
                        results.push(sr);
                        proof {
                            assert(results.deep_view() =~= old_results.push(sr@));
                            assert(results_for_ids(all_ids.skip(k as int), dv, cdv, ql, minc)
                                =~= seq![sr@] + results_for_ids(
                                all_ids.skip(k + 1),
                                dv,
                                cdv,
                                ql,
                                minc,
                            ));
                            assert(search_results(dv, cdv, ql, minc) =~= results.deep_view()
                                + results_for_ids(all_ids.skip(k + 1), dv, cdv, ql, minc));
                        }
                    } else {
                        proof {
                            assert(results_for_ids(all_ids.skip(k as int), dv, cdv, ql, minc)
                                =~= results_for_ids(all_ids.skip(k + 1), dv, cdv, ql, minc));
                        }
                    }
                },
                None => {
                    proof {
                        lemma_lookup_contact_none(cdv, cid);
                        assert(results_for_ids(all_ids.skip(k as int), dv, cdv, ql, minc)
                            =~= results_for_ids(all_ids.skip(k + 1), dv, cdv, ql, minc));
                    }
                },
            }
            k = k + 1;
        }
        proof {
            assert(all_ids.skip(ids@.len() as int) =~= Seq::<Seq<char>>::empty());
            assert(results.deep_view() =~= search_results(dv, cdv, ql, minc));
        }
        // rank and truncate
        let mut sorted = sort_results(results);
        let ghost full = sorted.deep_view();
        sorted.truncate(max_results);
        proof {
            let rs = search_results(dv, cdv, ql, minc);
            assert(full.to_multiset() == rs.to_multiset());
            assert(full.to_multiset().len() == full.len());
            assert(rs.to_multiset().len() == rs.len());
            if max_results <= full.len() {
                assert(sorted.deep_view() =~= full.take(max_results as int));
                assert(full =~= full.take(max_results as int) + full.skip(max_results as int));
                vstd::seq_lib::lemma_multiset_commutative(
                    full.take(max_results as int),
                    full.skip(max_results as int),
                );
                assert forall|x: SearchResultView|
                    rs.to_multiset().count(x) > sorted.deep_view().to_multiset().count(x) implies (
                forall|j: int|
                    0 <= j < sorted.deep_view().len() ==> result_le(
                        #[trigger] sorted.deep_view()[j],
                        x,
                    )) by {
                    let tail = full.skip(max_results as int);
                    assert(tail.to_multiset().count(x) > 0);
                    assert(tail.contains(x));
                    let t = choose|t: int| 0 <= t < tail.len() && tail[t] == x;
                    assert(full[max_results + t] == x);
                    assert forall|j: int| 0 <= j < sorted.deep_view().len() implies result_le(
                        #[trigger] sorted.deep_view()[j],
                        x,
                    ) by {
                        assert(sorted.deep_view()[j] == full[j]);
                        assert(result_le(full[j], full[max_results + t]));
                    }
                }
            } else {
                assert(sorted.deep_view() == full);
            }
        }
        sorted
    }
}

/// The best per-match confidence is bounded by the largest stored value.
proof fn lemma_max_conf_bounds(ms: Seq<MatchContextView>)
    ensures
        0 <= max_conf(ms) <= 255,
    decreases ms.len(),
{
    if ms.len() > 0 {
        lemma_max_conf_bounds(ms.drop_last());
    }
}

/// `lookup_contact` returns the first contact with the id.
proof fn lemma_lookup_contact(cs: Seq<ContactView>, cid: Seq<char>, f: int)
    requires
        0 <= f < cs.len(),
        cs[f].id == cid,
        forall|u: int| 0 <= u < f ==> cs[u].id != cid,
    ensures
        lookup_contact(cs, cid) == Some(cs[f]),
    decreases f,
{
    if f > 0 {
        assert(forall|u: int| 0 <= u < f - 1 ==> cs.skip(1)[u] == cs[u + 1]);
        assert(cs.skip(1)[f - 1] == cs[f]);
        lemma_lookup_contact(cs.skip(1), cid, f - 1);
    }
}

/// Without a matching id there is no contact to resolve.
proof fn lemma_lookup_contact_none(cs: Seq<ContactView>, cid: Seq<char>)
    requires
        forall|u: int| 0 <= u < cs.len() ==> cs[u].id != cid,
    ensures
        lookup_contact(cs, cid) == None::<ContactView>,
    decreases cs.len(),
{
    if cs.len() > 0 {
        assert(forall|u: int| 0 <= u < cs.skip(1).len() ==> cs.skip(1)[u] == cs[u + 1]);
        lemma_lookup_contact_none(cs.skip(1), cid);
    }
}

// ---------------------------------------------------------------------------
// Search laws
// ---------------------------------------------------------------------------
/// Multi-match boost ceiling: a contact matched in one or more fields has
/// overall confidence at most its best field confidence plus fifteen, and at
/// most one hundred.
pub proof fn lemma_boost_ceiling(ms: Seq<MatchContextView>)
    ensures
        group_conf(ms) <= min_int(100, max_conf(ms) + 15),
{
}

/// A snippet never exceeds the maximum snippet length.
pub proof fn lemma_snippet_len(content: Seq<char>, pos: int, qlen: int)
    requires
        0 <= pos <= content.len(),
        0 <= qlen,
    ensures
        snippet_of(content, pos, qlen).len() <= MAX_SNIPPET_LENGTH,
{
}

/// Snippet containment: for a substring match at `pos` whose query is short
/// enough that the snippet is not hard-truncated, the snippet with its
/// ellipses stripped contains the matched span of the original content.
/// (A long query can push the window past 150 characters; the truncation
/// then cuts the match itself.)
pub proof fn lemma_snippet_contains_match(content: Seq<char>, pos: int, qlen: int)
    requires
        0 <= pos,
        0 <= qlen,
        pos + qlen <= content.len(),
        qlen + 2 * CONTEXT_CHARS + 2 * 3 <= MAX_SNIPPET_LENGTH,
    ensures
        ({
            let start = if pos > CONTEXT_CHARS {
                pos - CONTEXT_CHARS
            } else {
                0
            };
            let end = min_int(pos + qlen + CONTEXT_CHARS, content.len() as int);
            let w = content.subrange(start, end);
            &&& contains_seq(w, content.subrange(pos, pos + qlen))
            &&& snippet_of(content, pos, qlen) == (if start > 0 {
                ellipsis() + w
            } else {
                w
            }) + (if end < content.len() {
                ellipsis()
            } else {
                Seq::<char>::empty()
            })
        }),
{
    let start = if pos > CONTEXT_CHARS {
        pos - CONTEXT_CHARS
    } else {
        0
    };
    let end = min_int(pos + qlen + CONTEXT_CHARS, content.len() as int);
    let w = content.subrange(start, end);
    assert(w.subrange(pos - start, pos - start + qlen) =~= content.subrange(pos, pos + qlen));
    assert(contains_at(w, pos - start, content.subrange(pos, pos + qlen)));
    let w1 = if start > 0 {
        ellipsis() + w
    } else {
        w
    };
    let w2 = if end < content.len() {
        w1 + ellipsis()
    } else {
        w1
    };
    assert(w2.len() <= MAX_SNIPPET_LENGTH);
    assert(w2 =~= (if start > 0 {
        ellipsis() + w
    } else {
        w
    }) + (if end < content.len() {
        ellipsis()
    } else {
        Seq::<char>::empty()
    }));
}

/// Lowering the threshold never loses a document match: what is kept at the
/// higher threshold is kept unchanged at the lower one.
proof fn lemma_doc_kept_monotonic(d: DocumentView, ql: Seq<char>, lo: u8, hi: u8)
    requires
        lo <= hi,
    ensures
        doc_kept(d, ql, hi) matches Some(mc) ==> doc_kept(d, ql, lo) == Some(mc),
{
}

/// Lowering the threshold only adds to a contact's kept matches: their
/// number and their best confidence never drop.
proof fn lemma_matches_monotonic(
    docs: Seq<DocumentView>,
    ql: Seq<char>,
    cid: Seq<char>,
    lo: u8,
    hi: u8,
)
    requires
        lo <= hi,
    ensures
        contact_matches(docs, ql, lo, cid).len() >= contact_matches(docs, ql, hi, cid).len(),
        max_conf(contact_matches(docs, ql, lo, cid)) >= max_conf(
            contact_matches(docs, ql, hi, cid),
        ),
    decreases docs.len(),
{
    if docs.len() > 0 {
        lemma_matches_monotonic(docs.drop_last(), ql, cid, lo, hi);
        lemma_doc_kept_monotonic(docs.last(), ql, lo, hi);
        let prev_lo = contact_matches(docs.drop_last(), ql, lo, cid);
        let prev_hi = contact_matches(docs.drop_last(), ql, hi, cid);
        match doc_kept(docs.last(), ql, lo) {
            Some(mc) => {
                if docs.last().contact_id == cid {
                    assert(prev_lo.push(mc).drop_last() =~= prev_lo);
                    if doc_kept(docs.last(), ql, hi) is Some {
                        assert(prev_hi.push(mc).drop_last() =~= prev_hi);
                    }
                }
            },
            None => {
                assert(doc_kept(docs.last(), ql, hi) is None);
            },
        }
    }
}

/// Lowering the threshold never loses a matching contact.
proof fn lemma_ids_monotonic(
    docs: Seq<DocumentView>,
    ql: Seq<char>,
    cid: Seq<char>,
    lo: u8,
    hi: u8,
)
    requires
        lo <= hi,
        matching_ids(docs, ql, hi).contains(cid),
    ensures
        matching_ids(docs, ql, lo).contains(cid),
    decreases docs.len(),
{
    if docs.len() > 0 {
        let prev_hi = matching_ids(docs.drop_last(), ql, hi);
        let prev_lo = matching_ids(docs.drop_last(), ql, lo);
        let cur_hi = matching_ids(docs, ql, hi);
        let cur_lo = matching_ids(docs, ql, lo);
        lemma_doc_kept_monotonic(docs.last(), ql, lo, hi);
        if prev_hi.contains(cid) {
            lemma_ids_monotonic(docs.drop_last(), ql, cid, lo, hi);
            if cur_lo.len() == prev_lo.len() + 1 {
                let t = choose|t: int| 0 <= t < prev_lo.len() && prev_lo[t] == cid;
                assert(cur_lo[t] == cid);
            }
        } else {
            // the id was added by the last document, which the lower
            // threshold also keeps
            assert(cur_hi.len() == prev_hi.len() + 1 && cur_hi.last() == docs.last().contact_id
                && docs.last().contact_id == cid) by {
                if cur_hi == prev_hi {
                    assert(false);
                }
            }
            if prev_lo.contains(cid) {
                let t = choose|t: int| 0 <= t < prev_lo.len() && prev_lo[t] == cid;
                if cur_lo.len() == prev_lo.len() + 1 {
                    assert(cur_lo[t] == cid);
                }
            } else {
                assert(cur_lo == prev_lo.push(cid));
                assert(cur_lo.last() == cid);
            }
        }
    }
}

/// A contact id earns a result: it resolves in the snapshot and its boosted
/// confidence clears the threshold.
pub open spec fn qualifies(
    docs: Seq<DocumentView>,
    cs: Seq<ContactView>,
    ql: Seq<char>,
    min_confidence: u8,
    cid: Seq<char>,
) -> bool {
    lookup_contact(cs, cid) is Some && group_conf(contact_matches(docs, ql, min_confidence, cid))
        >= min_confidence
}

/// The qualifying ids of a list, as a set.
pub open spec fn qual_set(
    ids: Seq<Seq<char>>,
    docs: Seq<DocumentView>,
    cs: Seq<ContactView>,
    ql: Seq<char>,
    min_confidence: u8,
) -> Set<Seq<char>> {
    ids.to_set().filter(|cid: Seq<char>| qualifies(docs, cs, ql, min_confidence, cid))
}

/// With no repeated ids, the result list is as long as the set of
/// qualifying ids.
proof fn lemma_results_len_is_qual_set(
    ids: Seq<Seq<char>>,
    docs: Seq<DocumentView>,
    cs: Seq<ContactView>,
    ql: Seq<char>,
    min_confidence: u8,
)
    requires
        forall|k1: int, k2: int| 0 <= k1 < k2 < ids.len() ==> ids[k1] != ids[k2],
    ensures
        results_for_ids(ids, docs, cs, ql, min_confidence).len() == qual_set(
            ids,
            docs,
            cs,
            ql,
            min_confidence,
        ).len(),
    decreases ids.len(),
{
    broadcast use vstd::set::group_set_axioms;
    broadcast use vstd::seq_lib::seq_to_set_is_finite;

    let p = |cid: Seq<char>| qualifies(docs, cs, ql, min_confidence, cid);
    if ids.len() == 0 {
        assert(ids.to_set() =~= Set::<Seq<char>>::empty());
        assert(qual_set(ids, docs, cs, ql, min_confidence) =~= Set::<Seq<char>>::empty());
    } else {
        let rest = ids.skip(1);
        assert(forall|k: int| 0 <= k < rest.len() ==> rest[k] == ids[k + 1]);
        lemma_results_len_is_qual_set(rest, docs, cs, ql, min_confidence);
        let s_rest = qual_set(rest, docs, cs, ql, min_confidence);
        // the head id never repeats among the rest
        assert(!rest.contains(ids[0])) by {
            if rest.contains(ids[0]) {
                let t = choose|t: int| 0 <= t < rest.len() && rest[t] == ids[0];
                assert(ids[t + 1] == ids[0]);
            }
        }
        rest.to_set().lemma_len_filter(p);
        assert(!s_rest.contains(ids[0]));
        assert forall|x: Seq<char>| ids.contains(x) <==> rest.contains(x) || x == ids[0] by {
            if ids.contains(x) {
                let t = choose|t: int| 0 <= t < ids.len() && ids[t] == x;
                if t > 0 {
                    assert(rest[t - 1] == x);
                }
            }
            if rest.contains(x) {
                let t = choose|t: int| 0 <= t < rest.len() && rest[t] == x;
                assert(ids[t + 1] == x);
            }
            if x == ids[0] {
                assert(ids[0] == x);
            }
        }
        if qualifies(docs, cs, ql, min_confidence, ids[0]) {
            assert(qual_set(ids, docs, cs, ql, min_confidence) =~= s_rest.insert(ids[0]));
            assert(s_rest.insert(ids[0]).len() == s_rest.len() + 1);
            assert(results_for_ids(ids, docs, cs, ql, min_confidence).len() == 1
                + results_for_ids(rest, docs, cs, ql, min_confidence).len());
        } else {
            assert(qual_set(ids, docs, cs, ql, min_confidence) =~= s_rest);
            assert(results_for_ids(ids, docs, cs, ql, min_confidence).len() == results_for_ids(
                rest,
                docs,
                cs,
                ql,
                min_confidence,
            ).len());
        }
    }
}

/// Threshold monotonicity for the full-text search, counted: with the query
/// and the dataset fixed, raising the confidence threshold never increases
/// the number of results a search can return.
pub proof fn lemma_search_count_monotonic(
    docs: Seq<DocumentView>,
    cs: Seq<ContactView>,
    ql: Seq<char>,
    lo: u8,
    hi: u8,
)
    requires
        lo <= hi,
    ensures
        search_results(docs, cs, ql, hi).len() <= search_results(docs, cs, ql, lo).len(),
{
    broadcast use vstd::set::group_set_axioms;
    broadcast use vstd::seq_lib::seq_to_set_is_finite;

    let ids_hi = matching_ids(docs, ql, hi);
    let ids_lo = matching_ids(docs, ql, lo);
    lemma_matching_ids_distinct(docs, ql, hi);
    lemma_matching_ids_distinct(docs, ql, lo);
    lemma_results_len_is_qual_set(ids_hi, docs, cs, ql, hi);
    lemma_results_len_is_qual_set(ids_lo, docs, cs, ql, lo);
    let s_hi = qual_set(ids_hi, docs, cs, ql, hi);
    let s_lo = qual_set(ids_lo, docs, cs, ql, lo);
    assert forall|cid: Seq<char>| s_hi.contains(cid) implies s_lo.contains(cid) by {
        assert(ids_hi.contains(cid));
        lemma_search_threshold_monotonic(docs, ql, cid, lo, hi);
        assert(ids_lo.contains(cid));
        assert(qualifies(docs, cs, ql, lo, cid));
    }
    ids_lo.to_set().lemma_len_filter(
        |cid: Seq<char>| qualifies(docs, cs, ql, lo, cid),
    );
    vstd::set_lib::lemma_len_subset(s_hi, s_lo);
}

/// Threshold monotonicity for the full-text search: with the query and the
/// dataset fixed, a contact that qualifies for the results at a higher
/// threshold also qualifies at any lower one — raising the threshold never
/// adds a result.
pub proof fn lemma_search_threshold_monotonic(
    docs: Seq<DocumentView>,
    ql: Seq<char>,
    cid: Seq<char>,
    lo: u8,
    hi: u8,
)
    requires
        lo <= hi,
    ensures
        matching_ids(docs, ql, hi).contains(cid) ==> matching_ids(docs, ql, lo).contains(cid),
        group_conf(contact_matches(docs, ql, hi, cid)) >= hi ==> group_conf(
            contact_matches(docs, ql, lo, cid),
        ) >= lo,
{
    if matching_ids(docs, ql, hi).contains(cid) {
        lemma_ids_monotonic(docs, ql, cid, lo, hi);
    }
    lemma_matches_monotonic(docs, ql, cid, lo, hi);
}

} // verus!
