//! Full-text search: a document index over contacts, notes and reminders,
//! scored free-text queries and snippet extraction.

pub mod full_text_index;

pub use full_text_index::{
    FullTextSearchIndex, MatchContext, SearchResult, SearchableDocument, SearchableField,
    strip_html,
};
