//! Listing the indexed repositories.

use vstd::prelude::*;

verus! {

/// All indexed repositories.
#[derive(Debug)]
pub struct ListReposResult {
    pub repos: Vec<RepoSummary>,
}

/// One indexed repository.
#[derive(Debug)]
pub struct RepoSummary {
    pub id: String,
    pub path: String,
    pub name: Option<String>,
    pub ingested_at: String,
}

} // verus!
