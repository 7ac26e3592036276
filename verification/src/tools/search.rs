//! The search orchestrator's core: a time-limited cache holding the search
//! index together with the contact snapshot it was built from, the search
//! over it, and the decisions of the paged bulk fetch. The fetching itself
//! is left to the caller, which hands the fetched records in and performs
//! the search again.

use vstd::prelude::*;
use crate::cache::timed_cache::{entry_for, CacheState};
use crate::error::DexApiError;
use crate::models::{Contact, ContactView, Note, NoteView, Reminder, ReminderView};
use crate::search::full_text_index::{
    docs_of_contact, results_ok, DocumentView, FullTextSearchIndex, SearchResult,
};
use crate::text;
use crate::text::lower_of;

verus! {

/// Parameters for a full-text search.
pub struct SearchParams {
    /// The query string
    pub query: String,
    /// Maximum number of results to return; ten when unset
    pub max_results: Option<usize>,
    /// Minimum confidence threshold, 0 to 100; fifty when unset
    pub min_confidence: Option<u8>,
}

impl Default for SearchParams {
    /// An empty query with the default limits.
    fn default() -> (r: Self)
        ensures
            r.query@ == Seq::<char>::empty(),
            r.max_results == Some(10usize),
            r.min_confidence == Some(50u8),
    {
        SearchParams { query: String::new(), max_results: Some(10), min_confidence: Some(50) }
    }
}

/// A search answer with its cache provenance.
pub struct SearchResponse {
    /// The ranked results
    pub results: Vec<SearchResult>,
    /// Whether the cached index answered the query
    pub from_cache: bool,
    /// How many documents the index holds
    pub index_size: usize,
}

/// The cached artefacts of one index build: the index and the contact
/// snapshot it was built from.
pub struct SearchCacheEntry {
    /// The document index
    pub index: FullTextSearchIndex,
    /// The contacts the index was built from
    pub contacts: Vec<Contact>,
}

/// The fixed key the search cache files everything under: one index serves
/// the whole dataset.
pub open spec fn search_cache_key() -> Seq<char> {
    "search_data"@
}

/// The documents of a list of (contact, notes, reminders) records, in order.
pub open spec fn docs_of_snapshot(
    ts: Seq<(ContactView, Seq<NoteView>, Seq<ReminderView>)>,
) -> Seq<DocumentView>
    decreases ts.len(),
{
    if ts.len() == 0 {
        Seq::empty()
    } else {
        docs_of_contact(ts[0].0, ts[0].1, ts[0].2) + docs_of_snapshot(ts.skip(1))
    }
}

/// The contacts of a list of (contact, notes, reminders) records.
pub open spec fn contacts_of_snapshot(
    ts: Seq<(ContactView, Seq<NoteView>, Seq<ReminderView>)>,
) -> Seq<ContactView> {
    ts.map_values(|t: (ContactView, Seq<NoteView>, Seq<ReminderView>)| t.0)
}

/// The search orchestrator's state: a cache holding at most one entry, the
/// built index and its contact snapshot, under the fixed key.
pub struct SearchEngine {
    cache: CacheState<String, SearchCacheEntry>,
}

impl SearchEngine {
    /// The cache contents.
    pub closed spec fn cache(&self) -> CacheState<String, SearchCacheEntry> {
        self.cache
    }

    /// The engine's invariant: the cache is well formed.
    pub open spec fn wf(&self) -> bool {
        self.cache().wf()
    }

    /// A fresh engine with an empty cache and the given time to live in
    /// milliseconds.
    pub fn new(cache_ttl_ms: u64) -> (r: Self)
        ensures
            r.wf(),
            r.cache().entries@.len() == 0,
            r.cache().ttl_ms == cache_ttl_ms,
    {
        SearchEngine { cache: CacheState::new(cache_ttl_ms) }
    }

    /// Answer a query from the cached index, when there is one that has not
    /// expired: the results of searching the cached index against the cached
    /// snapshot, marked as coming from the cache. A cache miss returns
    /// nothing; the caller must fetch the records, hand them to
    /// `install_and_search`, and report that answer as not from the cache.
    pub fn try_cached_search(
        &self,
        query: &str,
        max_results: usize,
        min_confidence: u8,
        now_ms: u64,
    ) -> (r: Option<SearchResponse>)
        ensures
            match (r, self.cache().lookup_fresh(search_cache_key(), now_ms)) {
                (Some(resp), Some(entry)) => {
                    &&& resp.from_cache == true
                    &&& resp.index_size == entry.index@.len()
                    &&& results_ok(
                        resp.results.deep_view(),
                        entry.index@,
                        entry.contacts.deep_view(),
                        lower_of(query@),
                        max_results as int,
                        min_confidence,
                    )
                },
                (None, None) => true,
                _ => false,
            },
    {
        let key = text::str_to_string("search_data");
        proof {
            reveal_strlit("search_data");
            assert(key@ == search_cache_key());
        }
        match self.cache.get_at(&key, now_ms) {
            Some(entry) => {
                let results = entry.index.search(
                    &entry.contacts,
                    query,
                    max_results,
                    min_confidence,
                );
                let index_size = entry.index.document_count();
                Some(SearchResponse { results, from_cache: true, index_size })
            },
            None => None,
        }
    }

    /// Build a fresh index from the fetched records, cache it together with
    /// the contact snapshot under the fixed key, and answer the query from
    /// it. The answer is marked as not from the cache.
    pub fn install_and_search(
        &mut self,
        records: Vec<(Contact, Vec<Note>, Vec<Reminder>)>,
        query: &str,
        max_results: usize,
        min_confidence: u8,
        now_ms: u64,
    ) -> (r: SearchResponse)
        requires
            old(self).wf(),
        ensures
            final(self).wf(),
            final(self).cache().ttl_ms == old(self).cache().ttl_ms,
            ({
                let docs = docs_of_snapshot(records.deep_view());
                let cs = contacts_of_snapshot(records.deep_view());
                &&& entry_for(final(self).cache().entries@, search_cache_key()) matches Some(e)
                    && e.inserted_at_ms == now_ms && e.value.index@ == docs
                    && e.value.contacts.deep_view() == cs
                &&& r.from_cache == false
                &&& r.index_size == docs.len()
                &&& results_ok(
                    r.results.deep_view(),
                    docs,
                    cs,
                    lower_of(query@),
                    max_results as int,
                    min_confidence,
                )
            }),
    {
        let ghost ts = records.deep_view();
        let mut index = FullTextSearchIndex::new();
        let mut contacts: Vec<Contact> = Vec::new();
        let n = records.len();
        let mut i: usize = 0;
        proof {
            assert(ts.skip(0) =~= ts);
            assert(index@ + docs_of_snapshot(ts) =~= docs_of_snapshot(ts));
        }
        while i < n
            invariant
                n == records@.len(),
                ts == records.deep_view(),
                i <= n,
                docs_of_snapshot(ts) =~= index@ + docs_of_snapshot(ts.skip(i as int)),
                contacts@.len() == i,
                forall|k: int| 0 <= k < i ==> (#[trigger] contacts@[k])@ == ts[k].0,
            decreases n - i,
        {
            let ghost rest = ts.skip(i as int);
            proof {
                assert(rest[0] == ts[i as int]);
                assert(rest.skip(1) =~= ts.skip(i + 1));
                assert(ts[i as int] == records@[i as int].deep_view());
                assert(records@[i as int].deep_view() == (
                    records@[i as int].0.deep_view(),
                    records@[i as int].1.deep_view(),
                    records@[i as int].2.deep_view(),
                ));
            }
            let record = &records[i];
            index.index_contact(&record.0, &record.1, &record.2);
            contacts.push(record.0.clone());
            i = i + 1;
        }
        proof {
            assert(ts.skip(n as int) =~= Seq::<(ContactView, Seq<NoteView>, Seq<ReminderView>)>::empty());
            assert(index@ =~= docs_of_snapshot(ts));
            assert(contacts.deep_view() =~= contacts_of_snapshot(ts));
        }
        let results = index.search(&contacts, query, max_results, min_confidence);
        let index_size = index.document_count();
        let key = text::str_to_string("search_data");
        proof {
            reveal_strlit("search_data");
            assert(key@ == search_cache_key());
        }
        self.cache.insert_at(key, SearchCacheEntry { index, contacts }, now_ms);
        SearchResponse { results, from_cache: false, index_size }
    }

    /// Forget the cached index, so that the next search rebuilds it from
    /// fresh data. Whoever mutates a contact, note or reminder must call
    /// this after the mutation commits.
    pub fn invalidate_cache(&mut self)
        requires
            old(self).wf(),
        ensures
            final(self).wf(),
            final(self).cache().ttl_ms == old(self).cache().ttl_ms,
            entry_for(final(self).cache().entries@, search_cache_key()) is None,
            forall|k2: Seq<char>|
                k2 != search_cache_key() ==> #[trigger] entry_for(
                    final(self).cache().entries@,
                    k2,
                ) == entry_for(old(self).cache().entries@, k2),
    {
        let key = text::str_to_string("search_data");
        proof {
            reveal_strlit("search_data");
            assert(key@ == search_cache_key());
        }
        self.cache.remove_key(&key);
    }

    /// Drop the cached entry once it has expired.
    pub fn cleanup_expired(&mut self, now_ms: u64)
        requires
            old(self).wf(),
        ensures
            final(self).wf(),
            final(self).cache().ttl_ms == old(self).cache().ttl_ms,
    {
        self.cache.cleanup_expired_at(now_ms);
    }
}

/// Invalidation law: with the fixed key absent — as `invalidate_cache`
/// leaves it — no read of the cache finds an entry, whatever the time, so
/// the next search cannot be answered from the cache and must rebuild.
pub proof fn lemma_invalidated_cache_misses(s: CacheState<String, SearchCacheEntry>, now_ms: u64)
    requires
        entry_for(s.entries@, search_cache_key()) is None,
    ensures
        s.lookup_fresh(search_cache_key(), now_ms) is None,
{
}

/// The recovery policy of the bulk build: a contact's failed notes or
/// reminders fetch degrades to an empty list for that contact — reported as
/// a warning by the caller, never fatal to the build.
pub fn fetched_or_empty<T>(fetched: Result<Vec<T>, DexApiError>) -> (r: Vec<T>)
    ensures
        match fetched {
            Ok(v) => r == v,
            Err(_) => r@.len() == 0,
        },
{
    match fetched {
        Ok(v) => v,
        Err(_) => Vec::new(),
    }
}

/// The decision of the paged bulk fetch: a full page means another page is
/// fetched at the advanced offset; a short page ends the listing.
pub fn next_page_offset(page_len: usize, page_size: usize, offset: usize) -> (r: Option<usize>)
    requires
        offset + page_size <= usize::MAX,
    ensures
        r == (if page_len < page_size {
            None::<usize>
        } else {
            Some((offset + page_size) as usize)
        }),
{
    if page_len < page_size {
        None
    } else {
        Some(offset + page_size)
    }
}

} // verus!
