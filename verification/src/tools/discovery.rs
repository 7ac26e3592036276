//! The contact discovery core: a time-limited cache of the full contact
//! snapshot, and ranked fuzzy matching over it. Fetching contacts is left to
//! the caller, which installs what it fetched and asks again.

use vstd::prelude::*;
use crate::cache::timed_cache::{entry_for, CacheState};
use crate::matching::fuzzy_matcher::{
    matches_ok, ContactMatcher, ContactQuery, ContactQueryView, MatchResult, MatchType,
};
use crate::models::contact::{clone_opt_string, Contact};
use crate::text;

verus! {

/// Parameters for finding a contact.
pub struct FindContactParams {
    /// Contact name, matched fuzzily
    pub name: Option<String>,
    /// Email address, matched exactly after normalisation
    pub email: Option<String>,
    /// Phone number, matched exactly after normalisation
    pub phone: Option<String>,
    /// Social media URL, matched exactly after normalisation
    pub social_url: Option<String>,
    /// Company name, used to boost fuzzy name matches
    pub company: Option<String>,
    /// Maximum number of results; five when unset
    pub max_results: Option<usize>,
    /// Minimum confidence threshold, 0 to 100; thirty when unset
    pub min_confidence: Option<u8>,
}

impl Default for FindContactParams {
    /// No search fields, with the default limits.
    fn default() -> (r: Self)
        ensures
            r.name is None,
            r.email is None,
            r.phone is None,
            r.social_url is None,
            r.company is None,
            r.max_results == Some(5usize),
            r.min_confidence == Some(30u8),
    {
        FindContactParams {
            name: None,
            email: None,
            phone: None,
            social_url: None,
            company: None,
            max_results: Some(5),
            min_confidence: Some(30),
        }
    }
}

/// The structured query a set of parameters asks for.
pub open spec fn query_of(p: FindContactParams) -> ContactQueryView {
    ContactQueryView {
        name: p.name.deep_view(),
        email: p.email.deep_view(),
        phone: p.phone.deep_view(),
        company: p.company.deep_view(),
        social_url: p.social_url.deep_view(),
    }
}

/// The answer to a discovery query, with its cache provenance.
pub struct FindContactResponse {
    /// Matched contacts with confidence scores, best first
    pub matches: Vec<MatchResult>,
    /// Whether the cached snapshot answered the query
    pub from_cache: bool,
}

/// The fixed key the discovery cache files the snapshot under.
pub open spec fn contacts_cache_key() -> Seq<char> {
    "all_contacts"@
}

/// The discovery core: a cache holding the full contact snapshot under a
/// fixed key, and the fuzzy matcher.
pub struct DiscoveryEngine {
    cache: CacheState<String, Vec<Contact>>,
    matcher: ContactMatcher,
}

impl DiscoveryEngine {
    /// The cache contents.
    pub closed spec fn cache(&self) -> CacheState<String, Vec<Contact>> {
        self.cache
    }

    /// The engine's invariant: the cache is well formed.
    pub open spec fn wf(&self) -> bool {
        self.cache().wf()
    }

    /// A fresh engine with an empty cache and the given time to live in
    /// milliseconds.
    pub fn new(cache_ttl_ms: u64) -> (r: Self)
        ensures
            r.wf(),
            r.cache().entries@.len() == 0,
            r.cache().ttl_ms == cache_ttl_ms,
    {
        DiscoveryEngine { cache: CacheState::new(cache_ttl_ms), matcher: ContactMatcher::new() }
    }

    /// Whether a fresh contact snapshot is cached at this time.
    pub fn has_cached_contacts(&self, now_ms: u64) -> (r: bool)
        ensures
            r == (self.cache().lookup_fresh(contacts_cache_key(), now_ms) is Some),
    {
        let key = text::str_to_string("all_contacts");
        proof {
            reveal_strlit("all_contacts");
            assert(key@ == contacts_cache_key());
        }
        self.cache.contains_key_at(&key, now_ms)
    }

    /// Cache a freshly fetched contact snapshot under the fixed key.
    pub fn install_contacts(&mut self, contacts: Vec<Contact>, now_ms: u64)
        requires
            old(self).wf(),
        ensures
            final(self).wf(),
            final(self).cache().ttl_ms == old(self).cache().ttl_ms,
            entry_for(final(self).cache().entries@, contacts_cache_key()) matches Some(e)
                && e.inserted_at_ms == now_ms && e.value == contacts,
    {
        let key = text::str_to_string("all_contacts");
        proof {
            reveal_strlit("all_contacts");
            assert(key@ == contacts_cache_key());
        }
        self.cache.insert_at(key, contacts, now_ms);
    }

    /// Answer a discovery query from the cached snapshot, when a fresh one
    /// exists; the ranked matches are computed over exactly that snapshot.
    /// A cache miss returns nothing; the caller fetches the contacts,
    /// installs them and calls `find_among`.
    pub fn find_contact_cached(&mut self, params: &FindContactParams, now_ms: u64) -> (r: Option<
        FindContactResponse,
    >)
        requires
            old(self).wf(),
        ensures
            *final(self) == *old(self),
            match (r, old(self).cache().lookup_fresh(contacts_cache_key(), now_ms)) {
                (Some(resp), Some(snapshot)) => {
                    &&& resp.from_cache == true
                    &&& matches_ok(
                        resp.matches.deep_view(),
                        query_of(*params),
                        snapshot.deep_view(),
                        (match params.max_results {
                            Some(m) => m,
                            None => 5usize,
                        }) as int,
                        match params.min_confidence {
                            Some(m) => m,
                            None => 30u8,
                        },
                    )
                },
                (None, None) => true,
                _ => false,
            },
    {
        let key = text::str_to_string("all_contacts");
        proof {
            reveal_strlit("all_contacts");
            assert(key@ == contacts_cache_key());
        }
        let snapshot: Option<Vec<Contact>> = match self.cache.get_at(&key, now_ms) {
            Some(v) => Some(crate::models::contact::clone_contacts(v)),
            None => None,
        };
        match snapshot {
            Some(contacts) => {
                let resp = self.find_among(params, &contacts, true);
                Some(resp)
            },
            None => None,
        }
    }

    /// Answer a discovery query over a given contact snapshot: the ranked
    /// matches of the structured query, with the given cache provenance.
    pub fn find_among(
        &mut self,
        params: &FindContactParams,
        contacts: &Vec<Contact>,
        from_cache: bool,
    ) -> (r: FindContactResponse)
        ensures
            *final(self) == *old(self),
            r.from_cache == from_cache,
            matches_ok(
                r.matches.deep_view(),
                query_of(*params),
                contacts.deep_view(),
                (match params.max_results {
                    Some(m) => m,
                    None => 5usize,
                }) as int,
                match params.min_confidence {
                    Some(m) => m,
                    None => 30u8,
                },
            ),
    {
        let max_results: usize = match &params.max_results {
            Some(m) => *m,
            None => 5,
        };
        let min_confidence: u8 = match &params.min_confidence {
            Some(m) => *m,
            None => 30,
        };
        let query = ContactQuery {
            name: clone_opt_string(&params.name),
            email: clone_opt_string(&params.email),
            phone: clone_opt_string(&params.phone),
            company: clone_opt_string(&params.company),
            social_url: clone_opt_string(&params.social_url),
        };
        proof {
            assert(query@ =~= query_of(*params));
        }
        let matches = self.matcher.find_matches(&query, contacts, max_results, min_confidence);
        FindContactResponse { matches, from_cache }
    }

    /// Turn the outcome of a direct email lookup into a discovery answer:
    /// each found contact is an exact email match with confidence one
    /// hundred, not from the cache.
    pub fn matches_from_email_lookup(results: Vec<Contact>) -> (r: FindContactResponse)
        ensures
            r.from_cache == false,
            r.matches@.len() == results@.len(),
            forall|i: int|
                0 <= i < r.matches@.len() ==> (#[trigger] r.matches@[i])@.contact
                    == results@[i]@ && r.matches@[i]@.confidence == 100
                    && r.matches@[i]@.match_type == MatchType::ExactEmail,
    {
        let mut matches: Vec<MatchResult> = Vec::new();
        let mut i: usize = 0;
        while i < results.len()
            invariant
                i <= results@.len(),
                matches@.len() == i,
                forall|t: int|
                    0 <= t < i ==> (#[trigger] matches@[t])@.contact == results@[t]@
                        && matches@[t]@.confidence == 100 && matches@[t]@.match_type
                        == MatchType::ExactEmail,
            decreases results@.len() - i,
        {
            matches.push(
                MatchResult {
                    contact: results[i].clone(),
                    confidence: 100,
                    match_type: MatchType::ExactEmail,
                },
            );
            i = i + 1;
        }
        FindContactResponse { matches, from_cache: false }
    }

    /// Forget the cached snapshot, so that the next discovery refetches.
    pub fn invalidate_cache(&mut self)
        requires
            old(self).wf(),
        ensures
            final(self).wf(),
            final(self).cache().ttl_ms == old(self).cache().ttl_ms,
            entry_for(final(self).cache().entries@, contacts_cache_key()) is None,
            forall|k2: Seq<char>|
                k2 != contacts_cache_key() ==> #[trigger] entry_for(
                    final(self).cache().entries@,
                    k2,
                ) == entry_for(old(self).cache().entries@, k2),
    {
        let key = text::str_to_string("all_contacts");
        proof {
            reveal_strlit("all_contacts");
            assert(key@ == contacts_cache_key());
        }
        self.cache.remove_key(&key);
    }
}

} // verus!
