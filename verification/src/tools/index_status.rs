//! Index status: what is indexed for a repository.

use vstd::prelude::*;

verus! {

/// Request for a repository's index status.
#[derive(Debug)]
pub struct IndexStatusParams {
    /// Absolute path to the repository root.
    pub repo_path: String,
}

/// How many entities of a kind are indexed and when they were last synced.
#[derive(Debug)]
pub struct EntityStatus {
    pub total: i64,
    pub last_sync_at: Option<String>,
}

/// How many entities of a kind are indexed and when they were last ingested.
#[derive(Debug)]
pub struct SimpleStatus {
    pub total: i64,
    pub last_ingested_at: Option<String>,
}

} // verus!
