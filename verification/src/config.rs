//! What the service is configured with.

use vstd::prelude::*;

verus! {

/// The configuration of the service: the directory that holds the single
/// environment of the storage engine, and the search service, if one is
/// used.
#[derive(Debug, PartialEq, Eq)]
pub struct Config {
    pub file_location: String,
    pub meilisearch: Option<MeilisearchConfig>,
}

/// Where the search service is reached and the key to present to it.
#[derive(Debug, PartialEq, Eq)]
pub struct MeilisearchConfig {
    pub host: String,
    pub api_key: String,
}

} // verus!
