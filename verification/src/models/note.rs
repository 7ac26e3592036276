//! The note record: free text attached to a contact, possibly holding HTML.

use vstd::prelude::*;
use crate::models::contact::clone_opt_string;
use crate::models::contact::clone_string_vec;
use crate::text;
use vstd::string::StrSliceExecFns;

verus! {

/// A note associated with a contact.
pub struct Note {
    /// Unique identifier for the note
    pub id: String,
    /// Identifier of the contact the note belongs to
    pub contact_id: String,
    /// The note content, possibly holding HTML
    pub content: String,
    /// Creation timestamp
    pub created_at: String,
    /// Last update timestamp
    pub updated_at: Option<String>,
    /// Tags associated with the note
    pub tags: Vec<String>,
    /// Where the note came from (e.g. "manual", "email")
    pub source: Option<String>,
}

/// The mathematical value of a `Note`.
#[verifier::ext_equal]
pub struct NoteView {
    pub id: Seq<char>,
    pub contact_id: Seq<char>,
    pub content: Seq<char>,
    pub created_at: Seq<char>,
    pub updated_at: Option<Seq<char>>,
    pub tags: Seq<Seq<char>>,
    pub source: Option<Seq<char>>,
}

impl View for Note {
    type V = NoteView;

    open spec fn view(&self) -> NoteView {
        NoteView {
            id: self.id@,
            contact_id: self.contact_id@,
            content: self.content@,
            created_at: self.created_at@,
            updated_at: self.updated_at.deep_view(),
            tags: self.tags.deep_view(),
            source: self.source.deep_view(),
        }
    }
}

impl DeepView for Note {
    type V = NoteView;

    open spec fn deep_view(&self) -> NoteView {
        self.view()
    }
}

impl Clone for Note {
    fn clone(&self) -> (res: Self)
        ensures
            res@ == self@,
    {
        let res = Note {
            id: self.id.clone(),
            contact_id: self.contact_id.clone(),
            content: self.content.clone(),
            created_at: self.created_at.clone(),
            updated_at: clone_opt_string(&self.updated_at),
            tags: clone_string_vec(&self.tags),
            source: clone_opt_string(&self.source),
        };
        proof {
            assert(res@ =~= self@);
        }
        res
    }
}

impl Note {
    /// Create a new note with the required fields; tags are empty, and the
    /// update timestamp and source are unset.
    pub fn new(id: String, contact_id: String, content: String, created_at: String) -> (r: Self)
        ensures
            r@.id == id@,
            r@.contact_id == contact_id@,
            r@.content == content@,
            r@.created_at == created_at@,
            r@.updated_at is None,
            r@.tags == Seq::<Seq<char>>::empty(),
            r@.source is None,
    {
        let r = Note {
            id,
            contact_id,
            content,
            created_at,
            updated_at: None,
            tags: Vec::new(),
            source: None,
        };
        proof {
            assert(r@.tags =~= Seq::<Seq<char>>::empty());
        }
        r
    }

    /// The note content with every HTML tag removed.
    pub fn plain_text(&self) -> (r: String)
        ensures
            r@ == strip_tags_drop(self@.content),
    {
        let chars = text::chars_of(self.content.as_str());
        let stripped = strip_tags_chars(&chars, false);
        text::string_from_chars(&stripped)
    }
}

/// The content of a sequence with every `<...>` tag replaced by `rep`: a
/// `<` opens a tag when a `>` follows later; the tag runs to the first such
/// `>`. A `<` with no closing `>` is kept as it stands.
pub open spec fn strip_tags_rep(s: Seq<char>, rep: Seq<char>) -> Seq<char>
    decreases s.len(),
    via strip_tags_rep_decreases
{
    if s.len() == 0 {
        Seq::empty()
    } else if s[0] == '<' && tag_end(s) is Some {
        rep + strip_tags_rep(s.skip(tag_end(s)->0 + 1), rep)
    } else {
        seq![s[0]] + strip_tags_rep(s.skip(1), rep)
    }
}

/// Tags replaced by single spaces, as the search index wants them.
pub open spec fn strip_tags(s: Seq<char>) -> Seq<char> {
    strip_tags_rep(s, seq![' '])
}

/// Tags removed outright, as `plain_text` wants them.
pub open spec fn strip_tags_drop(s: Seq<char>) -> Seq<char> {
    strip_tags_rep(s, Seq::empty())
}

/// The position of the first `>` of a sequence, if there is one.
pub open spec fn tag_end(s: Seq<char>) -> Option<int> {
    if exists|j: int| 0 <= j < s.len() && s[j] == '>' {
        Some(first_gt(s, 0))
    } else {
        None
    }
}

/// The first position at or after `i` holding `>`.
pub open spec fn first_gt(s: Seq<char>, i: int) -> int
    decreases s.len() - i,
{
    if i < 0 || i >= s.len() {
        i
    } else if s[i] == '>' {
        i
    } else {
        first_gt(s, i + 1)
    }
}

pub proof fn lemma_first_gt(s: Seq<char>, i: int)
    requires
        0 <= i <= s.len(),
        exists|j: int| i <= j < s.len() && s[j] == '>',
    ensures
        i <= first_gt(s, i) < s.len(),
        s[first_gt(s, i)] == '>',
        forall|j: int| i <= j < first_gt(s, i) ==> s[j] != '>',
    decreases s.len() - i,
{
    if i < s.len() && s[i] != '>' {
        lemma_first_gt(s, i + 1);
    }
}

#[via_fn]
proof fn strip_tags_rep_decreases(s: Seq<char>, rep: Seq<char>) {
    if s.len() > 0 && s[0] == '<' && tag_end(s) is Some {
        lemma_first_gt(s, 0);
    }
}

/// Replace every `<...>` tag of `v` by a single space (`space` set), or
/// remove it outright.
pub fn strip_tags_chars(v: &Vec<char>, space: bool) -> (r: Vec<char>)
    ensures
        r@ == strip_tags_rep(v@, if space { seq![' '] } else { Seq::empty() }),
{
    let ghost rep: Seq<char> = if space { seq![' '] } else { Seq::empty() };
    let n = v.len();
    let mut r: Vec<char> = Vec::new();
    let mut i: usize = 0;
    proof {
        assert(v@.skip(0) =~= v@);
    }
    while i < n
        invariant
            n == v@.len(),
            i <= n,
            rep == (if space { seq![' '] } else { Seq::<char>::empty() }),
            strip_tags_rep(v@, rep) =~= r@ + strip_tags_rep(v@.skip(i as int), rep),
        decreases n - i,
    {
        let ghost rest = v@.skip(i as int);
        proof {
            assert(forall|k: int| 0 <= k < rest.len() ==> rest[k] == v@[i + k]);
            assert(rest.skip(1) =~= v@.skip(i + 1));
        }
        if v[i] == '<' {
            // look for the closing '>'
            let mut j = i;
            let mut found = false;
            while j < n && !found
                invariant
                    n == v@.len(),
                    i <= j <= n,
                    found ==> j < n && v@[j as int] == '>',
                    forall|k: int| i <= k < j ==> v@[k] != '>',
                decreases n - j + (if found { 0int } else { 1int }),
            {
                if v[j] == '>' {
                    found = true;
                } else {
                    j = j + 1;
                }
            }
            if found {
                proof {
                    assert(v@[j as int] == '>');
                    assert(rest[j - i] == '>');
                    assert(exists|t: int| 0 <= t < rest.len() && rest[t] == '>');
                    lemma_first_gt(rest, 0);
                    assert(forall|k: int| 0 <= k < j - i ==> rest[k] != '>');
                    assert(first_gt(rest, 0) == j - i) by {
                        let g = first_gt(rest, 0);
                        if g < j - i {
                            assert(rest[g] == '>');
                        }
                        if g > j - i {
                            assert(rest[j - i] != '>');
                        }
                    }
                    assert(tag_end(rest) == Some(j - i as int));
                    assert(rest.skip(j - i + 1) =~= v@.skip(j + 1));
                    assert(strip_tags_rep(rest, rep) == rep + strip_tags_rep(v@.skip(j + 1), rep));
                }
                if space {
                    r.push(' ');
                }
                i = j + 1;
            } else {
                // no closing '>' anywhere to the right: every later character
                // is copied as it stands
                proof {
                    assert(forall|t: int| 0 <= t < rest.len() ==> rest[t] != '>');
                    lemma_strip_tags_no_gt(rest, rep);
                }
                let ghost r0 = r@;
                let mut p = i;
                while p < n
                    invariant
                        n == v@.len(),
                        i <= p <= n,
                        r@ == r0 + v@.subrange(i as int, p as int),
                    decreases n - p,
                {
                    r.push(v[p]);
                    assert(r@ =~= r0 + v@.subrange(i as int, p + 1));
                    p = p + 1;
                }
                proof {
                    assert(v@.subrange(i as int, n as int) =~= rest);
                    assert(r@ =~= r0 + strip_tags_rep(rest, rep));
                    assert(v@.skip(n as int) =~= Seq::<char>::empty());
                }
                i = n;
            }
        } else {
            r.push(v[i]);
            proof {
                assert(strip_tags_rep(rest, rep) == seq![v@[i as int]] + strip_tags_rep(
                    v@.skip(i + 1),
                    rep,
                ));
            }
            i = i + 1;
        }
    }
    proof {
        assert(v@.skip(n as int) =~= Seq::<char>::empty());
        assert(strip_tags_rep(v@, rep) =~= r@);
    }
    r
}

/// Without a `>` anywhere, stripping changes nothing.
pub proof fn lemma_strip_tags_no_gt(s: Seq<char>, rep: Seq<char>)
    requires
        forall|t: int| 0 <= t < s.len() ==> s[t] != '>',
    ensures
        strip_tags_rep(s, rep) == s,
    decreases s.len(),
{
    if s.len() > 0 {
        assert(forall|t: int| 0 <= t < s.skip(1).len() ==> s.skip(1)[t] == s[t + 1]);
        lemma_strip_tags_no_gt(s.skip(1), rep);
        if s[0] == '<' && tag_end(s) is Some {
            let j = choose|j: int| 0 <= j < s.len() && s[j] == '>';
            assert(false);
        }
        assert(strip_tags_rep(s, rep) =~= seq![s[0]] + s.skip(1));
        assert(seq![s[0]] + s.skip(1) =~= s);
    }
}

// ---------------------------------------------------------------------------
// Request payloads
// ---------------------------------------------------------------------------
/// The current time, rendered in RFC 3339.
///
/// Relies on `chrono::Utc::now` and `DateTime::to_rfc3339`; nothing is
/// assumed of the value. Like the underlying call, this panics when the
/// host clock is set before the Unix epoch — an environment state no
/// precondition can exclude.
#[verifier::external_body]
fn now_rfc3339() -> String {
    chrono::Utc::now().to_rfc3339()
}

/// One contact reference of a timeline event.
pub struct TimelineItemsContactsData {
    /// The contact
    pub contact_id: String,
}

/// The contact references of a timeline event.
pub struct TimelineItemsContacts {
    /// The entries
    pub data: Vec<TimelineItemsContactsData>,
}

/// The body of a note creation request: a timeline event of kind "note".
pub struct TimelineEventPayload {
    /// The note content
    pub note: String,
    /// When the event happened
    pub event_time: String,
    /// The event kind; always "note" here
    pub meeting_type: String,
    /// The contacts the event belongs to
    pub timeline_items_contacts: TimelineItemsContacts,
}

/// A request to create a note.
pub struct CreateNoteRequest {
    /// The event carrying the note
    pub timeline_event: TimelineEventPayload,
}

impl CreateNoteRequest {
    /// Build a creation request from a note: its content and contact carry
    /// over; a note without a timestamp is stamped with the current time.
    pub fn from(note: &Note) -> (r: Self)
        ensures
            r.timeline_event.note@ == note@.content,
            r.timeline_event.meeting_type@ == "note"@,
            note@.created_at.len() > 0 ==> r.timeline_event.event_time@ == note@.created_at,
            r.timeline_event.timeline_items_contacts.data@.len() == 1,
            r.timeline_event.timeline_items_contacts.data@[0].contact_id@ == note@.contact_id,
    {
        let event_time: String = if note.created_at.as_str().unicode_len() == 0 {
            now_rfc3339()
        } else {
            note.created_at.clone()
        };
        let mut data: Vec<TimelineItemsContactsData> = Vec::new();
        data.push(TimelineItemsContactsData { contact_id: note.contact_id.clone() });
        CreateNoteRequest {
            timeline_event: TimelineEventPayload {
                note: note.content.clone(),
                event_time,
                meeting_type: text::str_to_string("note"),
                timeline_items_contacts: TimelineItemsContacts { data },
            },
        }
    }
}

/// The changed fields of a note update.
pub struct NoteChanges {
    /// New content, when it changes
    pub note: Option<String>,
    /// New event time, when it changes
    pub event_time: Option<String>,
}

/// A request to update a note.
pub struct UpdateNoteRequest {
    /// The changed fields
    pub changes: UpdateNoteChanges,
}

/// The changes an update request carries.
pub type UpdateNoteChanges = NoteChanges;

impl UpdateNoteRequest {
    /// Build an update request from a note: nonempty content carries over;
    /// the event time is never touched.
    pub fn from(note: &Note) -> (r: Self)
        ensures
            note@.content.len() == 0 <==> r.changes.note is None,
            r.changes.note matches Some(c) ==> c@ == note@.content,
            r.changes.event_time is None,
    {
        let content: Option<String> = if note.content.as_str().unicode_len() == 0 {
            None
        } else {
            Some(note.content.clone())
        };
        UpdateNoteRequest { changes: NoteChanges { note: content, event_time: None } }
    }
}

} // verus!
