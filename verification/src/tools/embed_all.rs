//! Embedding everything: the request, its defaults and the result.

use vstd::prelude::*;

verus! {

/// Request to embed all texts of a repository.
#[derive(Debug)]
pub struct EmbedAllParams {
    /// Absolute path to the repository root.
    pub repo_path: String,
    /// Maximum chunk size in characters when splitting long texts.
    pub chunk_size: usize,
}

/// How many texts of each kind were embedded.
#[derive(Debug)]
pub struct EmbedAllResult {
    pub decisions_embedded: usize,
    pub constraints_embedded: usize,
    pub episodes_embedded: usize,
    pub commits_embedded: usize,
    pub symbols_embedded: usize,
    pub entity_nodes_embedded: usize,
    pub warnings: Vec<String>,
    pub warnings_total: usize,
}

/// The chunk size used when the request does not say.
pub fn default_chunk_size() -> (n: usize)
    ensures
        n == 512,
{
    512
}

} // verus!
