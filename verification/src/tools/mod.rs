//! The operations offered to callers: cached full-text search, cached
//! contact discovery, enrichment parameters and relationship history.

pub mod discovery;
pub mod enrichment;
pub mod history;
pub mod search;

pub use discovery::{DiscoveryEngine, FindContactParams, FindContactResponse};
pub use enrichment::{CreateNoteParams, CreateReminderParams, EnrichContactParams};
pub use history::{ContactHistoryResponse, HistoryFilterParams, TimelineEntry};
pub use search::{SearchEngine, SearchParams, SearchResponse};
