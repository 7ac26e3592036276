//! A verified contact search library: fuzzy contact matching, a full-text
//! search index over contacts, notes and reminders, and a TTL cache that
//! backs both search flows.

use vstd::prelude::*;

pub mod cache;
pub mod clock;
pub mod config;
pub mod domain;
pub mod error;
pub mod matching;
pub mod search;
pub mod services;
pub mod metrics;
pub mod models;
pub mod observability;
pub mod text;
pub mod tools;

pub use cache::TimedCache;
pub use config::Config;
pub use error::{ConfigError, DexApiError, MatchingError, SearchError};
pub use matching::{ContactMatcher, MatchResult};
pub use metrics::{HttpTimer, Metrics, MetricsSummary};
pub use models::{Contact, Note, Reminder, SocialProfile};
pub use search::{FullTextSearchIndex, MatchContext, SearchResult, SearchableDocument};
pub use text::levenshtein_distance;
pub use tools::{
    ContactHistoryResponse, CreateNoteParams, CreateReminderParams, DiscoveryEngine,
    EnrichContactParams, FindContactParams, FindContactResponse, HistoryFilterParams, SearchEngine,
    SearchParams, SearchResponse, TimelineEntry,
};

verus! {

} // verus!
