//! Error taxonomy: failures of the remote data source, of configuration, of
//! matching and of search.

use vstd::prelude::*;

verus! {

/// A failure of the remote data source.
#[derive(Debug)]
pub enum DexApiError {
    /// The request could not be carried
    HttpError(String),
    /// The data source answered with an error status
    ApiError {
        /// The status code
        status: u16,
        /// The response body
        message: String,
    },
    /// The response could not be decoded
    JsonError(String),
    /// The request timed out
    Timeout,
    /// The resource does not exist
    NotFound(String),
    /// The caller is not authenticated or not allowed
    Unauthorized,
    /// The caller sent too many requests
    RateLimitExceeded,
    /// The request itself was malformed
    InvalidRequest(String),
    /// Anything else
    Other(String),
}

/// Classify an error status answered by the data source: too many requests,
/// no access, a missing resource, or a plain error with its code and body.
pub fn api_error_from_status(status: u16, message: String) -> (r: DexApiError)
    ensures
        r == (if status == 429 {
            DexApiError::RateLimitExceeded
        } else if status == 401 || status == 403 {
            DexApiError::Unauthorized
        } else if status == 404 {
            DexApiError::NotFound(message)
        } else {
            DexApiError::ApiError { status, message }
        }),
{
    if status == 429 {
        DexApiError::RateLimitExceeded
    } else if status == 401 || status == 403 {
        DexApiError::Unauthorized
    } else if status == 404 {
        DexApiError::NotFound(message)
    } else {
        DexApiError::ApiError { status, message }
    }
}

/// A failure while loading configuration.
#[derive(Debug)]
pub enum ConfigError {
    /// A required environment variable is missing
    MissingVar(String),
    /// An environment variable holds an invalid value
    InvalidValue {
        /// Which variable
        var: String,
        /// Why the value was rejected
        reason: String,
    },
    /// The environment file could not be loaded
    DotenvError(String),
    /// Anything else
    Other(String),
}

/// A failure during fuzzy matching.
#[derive(Debug)]
pub enum MatchingError {
    /// The search query is invalid
    InvalidQuery(String),
    /// Nothing matched
    NoMatches,
    /// The cache failed
    CacheError(String),
    /// Anything else
    Other(String),
}

/// A failure during full-text search.
#[derive(Debug)]
pub enum SearchError {
    /// The index has not been built yet
    IndexNotReady,
    /// The search parameters are invalid
    InvalidParameters(String),
    /// The search itself failed
    ExecutionError(String),
    /// Anything else
    Other(String),
}

} // verus!
