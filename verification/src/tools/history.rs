//! Relationship history: notes and reminders folded into one timeline, with
//! filtering by kind and date range.

use vstd::prelude::*;
use crate::models::{Contact, Note, NoteView, Reminder, ReminderView};
use crate::text;
use crate::text::seq_lt;

verus! {

/// A timeline entry: a note or a reminder.
pub enum TimelineEntry {
    /// A note entry
    Note(Note),
    /// A reminder entry
    Reminder(Reminder),
}

/// The mathematical value of a `TimelineEntry`.
#[verifier::ext_equal]
pub enum TimelineEntryView {
    Note(NoteView),
    Reminder(ReminderView),
}

impl View for TimelineEntry {
    type V = TimelineEntryView;

    open spec fn view(&self) -> TimelineEntryView {
        match self {
            TimelineEntry::Note(n) => TimelineEntryView::Note(n@),
            TimelineEntry::Reminder(r) => TimelineEntryView::Reminder(r@),
        }
    }
}

impl DeepView for TimelineEntry {
    type V = TimelineEntryView;

    open spec fn deep_view(&self) -> TimelineEntryView {
        self.view()
    }
}

/// The timestamp an entry sorts by: a note's creation time; a reminder's due
/// date, since the data source reports no creation time for reminders.
pub open spec fn timestamp_of(e: TimelineEntryView) -> Seq<char> {
    match e {
        TimelineEntryView::Note(n) => n.created_at,
        TimelineEntryView::Reminder(r) => r.due_date,
    }
}

/// The kind of an entry, as a word.
pub open spec fn entry_type_of(e: TimelineEntryView) -> Seq<char> {
    match e {
        TimelineEntryView::Note(_) => "note"@,
        TimelineEntryView::Reminder(_) => "reminder"@,
    }
}

impl TimelineEntry {
    /// The timestamp the entry sorts by.
    pub fn timestamp(&self) -> (r: &str)
        ensures
            r@ == timestamp_of(self@),
    {
        match self {
            TimelineEntry::Note(note) => note.created_at.as_str(),
            TimelineEntry::Reminder(reminder) => reminder.due_date.as_str(),
        }
    }

    /// The kind of the entry, as a word.
    pub fn entry_type(&self) -> (r: &'static str)
        ensures
            r@ == entry_type_of(self@),
    {
        match self {
            TimelineEntry::Note(_) => "note",
            TimelineEntry::Reminder(_) => "reminder",
        }
    }
}

/// Parameters for filtering contact history.
pub struct HistoryFilterParams {
    /// Keep entries at or after this date
    pub start_date: Option<String>,
    /// Keep entries at or before this date
    pub end_date: Option<String>,
    /// Keep entries of these kinds, such as "note" or "reminder"
    pub entry_types: Option<Vec<String>>,
    /// Keep at most this many entries
    pub limit: Option<usize>,
}

impl Default for HistoryFilterParams {
    /// No filtering at all.
    fn default() -> (r: Self)
        ensures
            r.start_date is None,
            r.end_date is None,
            r.entry_types is None,
            r.limit is None,
    {
        HistoryFilterParams { start_date: None, end_date: None, entry_types: None, limit: None }
    }
}

/// A contact's history: the contact and its timeline, newest first.
pub struct ContactHistoryResponse {
    /// The contact
    pub contact: Contact,
    /// Timeline entries, newest first
    pub timeline: Vec<TimelineEntry>,
    /// How many entries the timeline holds
    pub total_entries: usize,
}

// ---------------------------------------------------------------------------
// Filtering
// ---------------------------------------------------------------------------
/// Whether a timestamp falls inside the requested date range; dates compare
/// lexicographically, which agrees with time order for ISO 8601 timestamps.
pub open spec fn in_range(
    ts: Seq<char>,
    start: Option<Seq<char>>,
    end: Option<Seq<char>>,
) -> bool {
    &&& match start {
        Some(d) => !seq_lt(ts, d),
        None => true,
    }
    &&& match end {
        Some(d) => !seq_lt(d, ts),
        None => true,
    }
}

/// Whether an entry's kind is among the requested ones; no request keeps
/// every kind.
pub open spec fn kind_requested(e: TimelineEntryView, types: Option<Seq<Seq<char>>>) -> bool {
    match types {
        Some(ts) => ts.contains(entry_type_of(e)),
        None => true,
    }
}

/// Whether a timeline entry survives the filter.
pub open spec fn entry_passes(e: TimelineEntryView, f: HistoryFilterParams) -> bool {
    kind_requested(e, f.entry_types.deep_view()) && in_range(
        timestamp_of(e),
        f.start_date.deep_view(),
        f.end_date.deep_view(),
    )
}

/// The entries that survive the filter, in order.
pub open spec fn kept_entries(es: Seq<TimelineEntryView>, f: HistoryFilterParams) -> Seq<
    TimelineEntryView,
>
    decreases es.len(),
{
    if es.len() == 0 {
        Seq::empty()
    } else {
        let head: Seq<TimelineEntryView> = if entry_passes(es[0], f) {
            seq![es[0]]
        } else {
            Seq::empty()
        };
        head + kept_entries(es.skip(1), f)
    }
}

/// A prefix bounded by the filter's limit, when it names one.
pub open spec fn limited<A>(s: Seq<A>, limit: Option<usize>) -> Seq<A> {
    match limit {
        Some(l) => if l <= s.len() {
            s.take(l as int)
        } else {
            s
        },
        None => s,
    }
}

/// Whether a word is among the requested entry kinds.
fn kind_in(types: &Vec<String>, kind: &str) -> (r: bool)
    ensures
        r == types.deep_view().contains(kind@),
{
    let kind_chars = text::chars_of(kind);
    let mut t: usize = 0;
    while t < types.len()
        invariant
            t <= types@.len(),
            kind_chars@ == kind@,
            forall|u: int| 0 <= u < t ==> types.deep_view()[u] != kind@,
        decreases types@.len() - t,
    {
        let tc = text::chars_of(types[t].as_str());
        if text::chars_eq(&tc, &kind_chars) {
            assert(types.deep_view()[t as int] == kind@);
            return true;
        }
        t = t + 1;
    }
    proof {
        if types.deep_view().contains(kind@) {
            let u = choose|u: int| 0 <= u < types.deep_view().len() && types.deep_view()[u] == kind@;
        }
    }
    false
}

/// Whether a timestamp falls inside the requested date range.
fn range_check(ts: &str, start: &Option<String>, end: &Option<String>) -> (r: bool)
    ensures
        r == in_range(ts@, start.deep_view(), end.deep_view()),
{
    let ts_chars = text::chars_of(ts);
    if let Some(d) = start {
        let dc = text::chars_of(d.as_str());
        if text::chars_lt(&ts_chars, &dc) {
            return false;
        }
    }
    if let Some(d) = end {
        let dc = text::chars_of(d.as_str());
        if text::chars_lt(&dc, &ts_chars) {
            return false;
        }
    }
    true
}

/// Filter a timeline: keep the requested kinds inside the date range, in
/// order, at most as many as the limit allows.
pub fn apply_filters(timeline: Vec<TimelineEntry>, filter: &HistoryFilterParams) -> (r: Vec<
    TimelineEntry,
>)
    ensures
        r.deep_view() == limited(kept_entries(timeline.deep_view(), *filter), filter.limit),
{
    let ghost es = timeline.deep_view();
    let mut rest = timeline;
    let n = rest.len();
    let mut kept: Vec<TimelineEntry> = Vec::new();
    let mut i: usize = 0;
    proof {
        assert(es.skip(0) =~= es);
        assert(kept.deep_view() + kept_entries(es, *filter) =~= kept_entries(es, *filter));
    }
    while i < n
        invariant
            n == es.len(),
            rest.deep_view() =~= es.skip(i as int),
            i <= n,
            kept_entries(es, *filter) =~= kept.deep_view() + kept_entries(
                es.skip(i as int),
                *filter,
            ),
        decreases n - i,
    {
        let ghost tail = es.skip(i as int);
        proof {
            assert(tail[0] == es[i as int]);
            assert(tail.skip(1) =~= es.skip(i + 1));
            assert(rest@[0]@ == tail[0]);
        }
        let e = rest.remove(0);
        proof {
            assert(e@ == es[i as int]);
            assert(rest.deep_view() =~= tail.remove(0));
            assert(tail.remove(0) =~= es.skip(i + 1));
        }
        let kind_ok = match &filter.entry_types {
            Some(types) => kind_in(types, e.entry_type()),
            None => true,
        };
        let keep = kind_ok && range_check(e.timestamp(), &filter.start_date, &filter.end_date);
        let ghost before = kept.deep_view();
        if keep {
            kept.push(e);
            proof {
                assert(kept.deep_view() =~= before + seq![es[i as int]]);
            }
        }
        i = i + 1;
    }
    proof {
        assert(es.skip(n as int) =~= Seq::<TimelineEntryView>::empty());
        assert(kept.deep_view() =~= kept_entries(es, *filter));
    }
    if let Some(limit) = filter.limit {
        let ghost full = kept.deep_view();
        kept.truncate(limit);
        proof {
            if limit <= full.len() {
                assert(kept.deep_view() =~= full.take(limit as int));
            }
        }
    }
    kept
}

/// The notes inside the date range, judged by their creation time.
pub open spec fn kept_notes(ns: Seq<NoteView>, f: HistoryFilterParams) -> Seq<NoteView>
    decreases ns.len(),
{
    if ns.len() == 0 {
        Seq::empty()
    } else {
        let head: Seq<NoteView> = if in_range(
            ns[0].created_at,
            f.start_date.deep_view(),
            f.end_date.deep_view(),
        ) {
            seq![ns[0]]
        } else {
            Seq::empty()
        };
        head + kept_notes(ns.skip(1), f)
    }
}

/// Filter notes by date range and limit; the entry kinds play no part.
pub fn filter_notes(notes: Vec<Note>, filter: &HistoryFilterParams) -> (r: Vec<Note>)
    ensures
        r.deep_view() == limited(kept_notes(notes.deep_view(), *filter), filter.limit),
{
    let ghost es = notes.deep_view();
    let mut rest = notes;
    let n = rest.len();
    let mut kept: Vec<Note> = Vec::new();
    let mut i: usize = 0;
    proof {
        assert(es.skip(0) =~= es);
        assert(kept.deep_view() + kept_notes(es, *filter) =~= kept_notes(es, *filter));
    }
    while i < n
        invariant
            n == es.len(),
            rest.deep_view() =~= es.skip(i as int),
            i <= n,
            kept_notes(es, *filter) =~= kept.deep_view() + kept_notes(es.skip(i as int), *filter),
        decreases n - i,
    {
        let ghost tail = es.skip(i as int);
        proof {
            assert(tail[0] == es[i as int]);
            assert(tail.skip(1) =~= es.skip(i + 1));
            assert(rest@[0]@ == tail[0]);
        }
        let e = rest.remove(0);
        proof {
            assert(e@ == es[i as int]);
            assert(rest.deep_view() =~= tail.remove(0));
            assert(tail.remove(0) =~= es.skip(i + 1));
        }
        let keep = range_check(e.created_at.as_str(), &filter.start_date, &filter.end_date);
        let ghost before = kept.deep_view();
        if keep {
            kept.push(e);
            proof {
                assert(kept.deep_view() =~= before + seq![es[i as int]]);
            }
        }
        i = i + 1;
    }
    proof {
        assert(es.skip(n as int) =~= Seq::<NoteView>::empty());
        assert(kept.deep_view() =~= kept_notes(es, *filter));
    }
    if let Some(limit) = filter.limit {
        let ghost full = kept.deep_view();
        kept.truncate(limit);
        proof {
            if limit <= full.len() {
                assert(kept.deep_view() =~= full.take(limit as int));
            }
        }
    }
    kept
}

/// The reminders inside the date range, judged by their creation time.
pub open spec fn kept_reminders(rs: Seq<ReminderView>, f: HistoryFilterParams) -> Seq<ReminderView>
    decreases rs.len(),
{
    if rs.len() == 0 {
        Seq::empty()
    } else {
        let head: Seq<ReminderView> = if in_range(
            rs[0].created_at,
            f.start_date.deep_view(),
            f.end_date.deep_view(),
        ) {
            seq![rs[0]]
        } else {
            Seq::empty()
        };
        head + kept_reminders(rs.skip(1), f)
    }
}

/// Filter reminders by date range and limit; the entry kinds play no part.
pub fn filter_reminders(reminders: Vec<Reminder>, filter: &HistoryFilterParams) -> (r: Vec<
    Reminder,
>)
    ensures
        r.deep_view() == limited(kept_reminders(reminders.deep_view(), *filter), filter.limit),
{
    let ghost es = reminders.deep_view();
    let mut rest = reminders;
    let n = rest.len();
    let mut kept: Vec<Reminder> = Vec::new();
    let mut i: usize = 0;
    proof {
        assert(es.skip(0) =~= es);
        assert(kept.deep_view() + kept_reminders(es, *filter) =~= kept_reminders(es, *filter));
    }
    while i < n
        invariant
            n == es.len(),
            rest.deep_view() =~= es.skip(i as int),
            i <= n,
            kept_reminders(es, *filter) =~= kept.deep_view() + kept_reminders(
                es.skip(i as int),
                *filter,
            ),
        decreases n - i,
    {
        let ghost tail = es.skip(i as int);
        proof {
            assert(tail[0] == es[i as int]);
            assert(tail.skip(1) =~= es.skip(i + 1));
            assert(rest@[0]@ == tail[0]);
        }
        let e = rest.remove(0);
        proof {
            assert(e@ == es[i as int]);
            assert(rest.deep_view() =~= tail.remove(0));
            assert(tail.remove(0) =~= es.skip(i + 1));
        }
        let keep = range_check(e.created_at.as_str(), &filter.start_date, &filter.end_date);
        let ghost before = kept.deep_view();
        if keep {
            kept.push(e);
            proof {
                assert(kept.deep_view() =~= before + seq![es[i as int]]);
            }
        }
        i = i + 1;
    }
    proof {
        assert(es.skip(n as int) =~= Seq::<ReminderView>::empty());
        assert(kept.deep_view() =~= kept_reminders(es, *filter));
    }
    if let Some(limit) = filter.limit {
        let ghost full = kept.deep_view();
        kept.truncate(limit);
        proof {
            if limit <= full.len() {
                assert(kept.deep_view() =~= full.take(limit as int));
            }
        }
    }
    kept
}

} // verus!
