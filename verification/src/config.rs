//! Configuration: the validated settings the library runs with. Reading the
//! environment is the caller's concern; the validation rules live here.

use vstd::prelude::*;
use vstd::string::StrSliceExecFns;
use crate::error::ConfigError;
use crate::text;
use crate::text::{starts_with, trim_of};

verus! {

/// The settings of a running instance.
pub struct Config {
    /// Base URL of the remote data source
    pub dex_api_url: String,
    /// API key for the remote data source
    pub dex_api_key: String,
    /// Cache time to live, in minutes
    pub cache_ttl_minutes: u64,
    /// Request timeout, in seconds
    pub request_timeout: u64,
    /// How many fuzzy matches to return at most
    pub max_match_results: usize,
    /// Fuzzy match confidence threshold, 0 to 100
    pub match_confidence_threshold: u8,
    /// Log level
    pub log_level: String,
}

impl Default for Config {
    /// Empty endpoint data with the stock limits: a thirty-minute cache,
    /// a ten-second timeout, five matches at a threshold of thirty, and
    /// error-level logging.
    fn default() -> (r: Self)
        ensures
            r.dex_api_url@ == Seq::<char>::empty(),
            r.dex_api_key@ == Seq::<char>::empty(),
            r.cache_ttl_minutes == 30u64,
            r.request_timeout == 10u64,
            r.max_match_results == 5usize,
            r.match_confidence_threshold == 30u8,
            r.log_level@ == "error"@,
    {
        Config {
            dex_api_url: String::new(),
            dex_api_key: String::new(),
            cache_ttl_minutes: 30,
            request_timeout: 10,
            max_match_results: 5,
            match_confidence_threshold: 30,
            log_level: text::str_to_string("error"),
        }
    }
}

/// The validation rules on raw configuration values: the URL must carry a
/// scheme, and the key must not be blank. The numeric limits are taken as
/// they come; a confidence threshold cannot exceed its type's range.
pub fn config_from_values(
    dex_api_url: String,
    dex_api_key: String,
    cache_ttl_minutes: u64,
    request_timeout: u64,
    max_match_results: usize,
    match_confidence_threshold: u8,
    log_level: String,
) -> (r: Result<Config, ConfigError>)
    ensures
        match r {
            Ok(c) => {
                &&& starts_with(dex_api_url@, "http://"@) || starts_with(
                    dex_api_url@,
                    "https://"@,
                )
                &&& trim_of(dex_api_key@).len() > 0
                &&& c.dex_api_url == dex_api_url
                &&& c.dex_api_key == dex_api_key
                &&& c.cache_ttl_minutes == cache_ttl_minutes
                &&& c.request_timeout == request_timeout
                &&& c.max_match_results == max_match_results
                &&& c.match_confidence_threshold == match_confidence_threshold
                &&& c.log_level == log_level
            },
            Err(e) => {
                ||| !(starts_with(dex_api_url@, "http://"@) || starts_with(
                    dex_api_url@,
                    "https://"@,
                )) && (e matches ConfigError::InvalidValue { var, reason: _ } && var@
                    == "DEX_API_BASE_URL"@)
                ||| trim_of(dex_api_key@).len() == 0 && (e matches ConfigError::InvalidValue {
                    var,
                    reason: _,
                } && var@ == "DEX_API_KEY"@)
            },
        },
{
    let url_chars = text::chars_of(dex_api_url.as_str());
    let http = text::chars_of("http://");
    let https = text::chars_of("https://");
    proof {
        reveal_strlit("http://");
        reveal_strlit("https://");
    }
    if !(text::starts_with_exec(&url_chars, &http) || text::starts_with_exec(&url_chars, &https)) {
        return Err(
            ConfigError::InvalidValue {
                var: text::str_to_string("DEX_API_BASE_URL"),
                reason: text::str_to_string("Must start with http:// or https://"),
            },
        );
    }
    let key_trimmed = text::trim_str(dex_api_key.as_str());
    if key_trimmed.unicode_len() == 0 {
        return Err(
            ConfigError::InvalidValue {
                var: text::str_to_string("DEX_API_KEY"),
                reason: text::str_to_string("Cannot be empty"),
            },
        );
    }
    Ok(
        Config {
            dex_api_url,
            dex_api_key,
            cache_ttl_minutes,
            request_timeout,
            max_match_results,
            match_confidence_threshold,
            log_level,
        },
    )
}

} // verus!
