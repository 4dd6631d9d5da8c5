//! Deleting a repository's index.

use vstd::prelude::*;

verus! {

/// Request to delete a repository and everything indexed for it.
#[derive(Debug)]
pub struct DeleteRepoParams {
    /// Absolute path to the repository root (must match a stored path exactly).
    pub repo_path: String,
}

/// Whether anything was deleted.
#[derive(Debug)]
pub struct DeleteRepoResult {
    pub deleted: bool,
    pub repo_path: String,
    pub message: String,
}

/// The answer to a deletion of the repository stored under `repo_path`
/// (already trimmed), depending on whether one was found.
pub fn delete_result(deleted: bool, repo_path: String) -> (r: DeleteRepoResult)
    ensures
        r.deleted == deleted,
        r.repo_path == repo_path,
        deleted ==> r.message@ == "Repository and all associated data deleted."@,
        !deleted ==> r.message@ == "Repository not found; nothing was deleted."@,
{
    if deleted {
        DeleteRepoResult {
            deleted: true,
            repo_path,
            message: String::from_str("Repository and all associated data deleted."),
        }
    } else {
        DeleteRepoResult {
            deleted: false,
            repo_path,
            message: String::from_str("Repository not found; nothing was deleted."),
        }
    }
}

} // verus!
