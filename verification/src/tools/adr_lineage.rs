//! ADR lineage: the supersession chain around an ADR.

use vstd::prelude::*;

verus! {

/// Request for the lineage of an ADR.
#[derive(Debug)]
pub struct AdrLineageParams {
    /// Absolute path to the git repository root.
    pub repo_path: String,
    /// ADR ID to start from, e.g. "ADR-0003", "ADR-3", "0003", or "3".
    pub adr_id: String,
    /// How many hops to follow in each direction (default: 10).
    pub max_hops: usize,
}

/// One ADR in a lineage.
#[derive(Debug)]
pub struct LineageNode {
    pub adr_id: String,
    pub title: Option<String>,
    pub status: String,
    pub valid_from: String,
    pub valid_to: Option<String>,
}

/// An ADR with its predecessors and successors.
#[derive(Debug)]
pub struct AdrLineageResult {
    pub root: LineageNode,
    /// ADRs that this one superseded (predecessors), ordered oldest to newest.
    pub superseded: Vec<LineageNode>,
    /// ADRs that superseded this one (successors), ordered oldest to newest.
    pub superseded_by: Vec<LineageNode>,
    pub warnings: Vec<String>,
}

/// The number of hops followed when the request does not say.
pub fn default_max_hops() -> (n: usize)
    ensures
        n == 10,
{
    10
}

/// The lineage node of a stored ADR document.
pub fn adr_to_node(
    adr_id: String,
    title: String,
    status: &str,
    valid_from: String,
    valid_to: Option<String>,
) -> (n: LineageNode)
    ensures
        n.adr_id == adr_id,
        n.title == Some(title),
        n.status@ == status@,
        n.valid_from == valid_from,
        n.valid_to == valid_to,
{
    LineageNode {
        adr_id,
        title: Some(title),
        status: crate::text::string_of(&crate::text::chars_of(status)),
        valid_from,
        valid_to,
    }
}

/// The lineage reported for an ADR that is not in the index: an `unknown`
/// root with no title or dates, no neighbours, and a warning.
pub fn unknown_lineage(adr_id: String) -> (r: AdrLineageResult)
    ensures
        r.root.adr_id@ == adr_id@,
        r.root.title is None,
        r.root.status@ == "unknown"@,
        r.root.valid_from@.len() == 0,
        r.root.valid_to is None,
        r.superseded@.len() == 0,
        r.superseded_by@.len() == 0,
        r.warnings@.len() == 1,
        r.warnings@[0]@ == "ADR '"@ + adr_id@ + "' not found in repository"@,
{
    let mut w = String::from_str("ADR '");
    crate::text::push_str(&mut w, adr_id.as_str());
    crate::text::push_str(&mut w, "' not found in repository");
    let root = LineageNode {
        adr_id,
        title: None,
        status: String::from_str("unknown"),
        valid_from: String::new(),
        valid_to: None,
    };
    AdrLineageResult { root, superseded: Vec::new(), superseded_by: Vec::new(), warnings: vec![w] }
}

} // verus!
