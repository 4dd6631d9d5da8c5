//! Graph snapshots: the request, its limits, and the warnings of an empty
//! snapshot.

use vstd::prelude::*;

verus! {

/// Request for a snapshot of the knowledge graph.
#[derive(Debug)]
pub struct GetGraphSnapshotParams {
    /// Absolute path to the repository root.
    pub repo_path: String,
    /// ISO-8601 timestamp to query as-of. Defaults to current time.
    pub valid_at: Option<String>,
    /// When set, only the neighbourhood of matching symbols.
    pub focus_symbol: Option<String>,
    /// Hops to expand from `focus_symbol`.
    pub focus_depth: u32,
    /// Max nodes fetched per major kind; unlimited when absent.
    pub max_nodes_per_kind: Option<usize>,
    /// Max edge rows per global edge batch; unlimited when absent.
    pub max_edges: Option<usize>,
}

/// The focus depth used when the request does not say.
pub fn default_focus_depth() -> (n: u32)
    ensures
        n == 2,
{
    2
}

/// A snapshot of the graph. `N` and `E` are the node and edge rows the store
/// hands back.
#[derive(Debug)]
pub struct GetGraphSnapshotResult<N, E> {
    pub repo_path: String,
    pub nodes: Vec<N>,
    pub edges: Vec<E>,
    pub warnings: Vec<String>,
}

/// The number of hops a focused snapshot expands: the requested depth kept
/// between one and six.
pub fn focus_hops(focus_depth: u32) -> (n: u32)
    ensures
        n == (if focus_depth < 1 { 1 } else if focus_depth > 6 { 6 } else { focus_depth }),
{
    if focus_depth < 1 {
        1
    } else if focus_depth > 6 {
        6
    } else {
        focus_depth
    }
}

/// The warning of a snapshot with no nodes.
pub open spec fn empty_snapshot_warning(focus: Option<Seq<char>>) -> Seq<char> {
    match focus {
        Some(f) => "no symbols matching '"@ + f + "' found; run ingest_symbols first"@,
        None => "graph is empty; ingest ADRs, symbols, or commits first"@,
    }
}

/// The snapshot from the rows the store returned: it warns when there are no
/// nodes, naming the focus symbol when there is one.
pub fn snapshot_result<N, E>(repo_path: String, nodes: Vec<N>, edges: Vec<E>, focus: Option<&str>) -> (r:
    GetGraphSnapshotResult<N, E>)
    ensures
        r.repo_path == repo_path,
        r.nodes == nodes,
        r.edges == edges,
        nodes@.len() == 0 ==> r.warnings@.len() == 1 && r.warnings@[0]@ == empty_snapshot_warning(
            match focus {
                Some(f) => Some(f@),
                None => None,
            },
        ),
        nodes@.len() > 0 ==> r.warnings@.len() == 0,
{
    let mut warnings: Vec<String> = Vec::new();
    if nodes.len() == 0 {
        let mut w = String::new();
        match focus {
            Some(f) => {
                crate::text::push_str(&mut w, "no symbols matching '");
                crate::text::push_str(&mut w, f);
                crate::text::push_str(&mut w, "' found; run ingest_symbols first");
            },
            None => {
                crate::text::push_str(&mut w, "graph is empty; ingest ADRs, symbols, or commits first");
            },
        }
        warnings.push(w);
    }
    GetGraphSnapshotResult { repo_path, nodes, edges, warnings }
}

} // verus!
