//! Fuzzy contact matching: normalisation of the searched fields, scoring,
//! and ranked matching of contacts against a structured query.

pub mod fuzzy_matcher;

pub use fuzzy_matcher::{ContactMatcher, ContactQuery, MatchResult, MatchType};
