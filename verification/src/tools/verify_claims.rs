//! Verifying the claims behind decisions: the request.

use vstd::prelude::*;

verus! {

/// Request to verify the evidence behind claims.
#[derive(Debug)]
pub struct VerifyClaimsParams {
    /// Absolute path to the repository root.
    pub repo_path: String,
    /// Human ADR id, e.g. "ADR-0042".
    pub adr_id: Option<String>,
    /// Decision UUID.
    pub decision_id: Option<String>,
    /// Repo-relative file path.
    pub file: Option<String>,
    /// Symbol name.
    pub symbol: Option<String>,
    /// Verification mode: `cached` (default), `fresh`, `skip`.
    pub verify: Option<String>,
}

} // verus!
