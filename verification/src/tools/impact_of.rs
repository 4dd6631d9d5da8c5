//! Impact analysis from an ADR: request defaults and the root reference.

use vstd::prelude::*;

verus! {

/// Request for what an ADR affects.
#[derive(Debug)]
pub struct ImpactOfParams {
    /// Absolute path to the repository root.
    pub repo_path: String,
    /// ADR document ID (e.g. "0001") or decision UUID to start from.
    pub adr_id: String,
    /// Maximum traversal depth (default 3).
    pub max_depth: u32,
    /// Edge types to follow.
    pub edge_types: Vec<String>,
    /// ISO-8601 timestamp to query as-of. Defaults to current time.
    pub valid_at: Option<String>,
}

/// The ADR the traversal starts from.
#[derive(Debug)]
pub struct RootRef {
    pub adr_id: String,
    pub title: Option<String>,
    pub entity_type: String,
    pub entity_id: String,
}

/// The traversal depth used when the request does not say.
pub fn default_max_depth() -> (n: u32)
    ensures
        n == 3,
{
    3
}

/// The edge types followed by default.
pub open spec fn default_edges() -> Seq<Seq<char>> {
    seq!["applies_to"@, "depends_on"@, "conflicts_with"@, "defines"@, "imposes"@]
}

/// The edge types followed when the request does not say: `applies_to`,
/// `depends_on`, `conflicts_with`, `defines`, `imposes`.
pub fn default_edge_types() -> (v: Vec<String>)
    ensures
        v@.map_values(|s: String| s@) == default_edges(),
{
    let v = vec![
        String::from_str("applies_to"),
        String::from_str("depends_on"),
        String::from_str("conflicts_with"),
        String::from_str("defines"),
        String::from_str("imposes"),
    ];
    proof {
        assert(v@.map_values(|s: String| s@) =~= default_edges());
    }
    v
}

} // verus!
