//! The graph schema: its tables, the role of each, and which of them hold
//! nodes and which edges.

use vstd::prelude::*;

use crate::text::views;

verus! {

/// Request for the graph schema.
#[derive(Debug)]
pub struct GetGraphSchemaParams {
    /// Also count the rows of each table.
    pub include_counts: bool,
}

/// The schema of the graph.
#[derive(Debug)]
pub struct GetGraphSchemaResult {
    pub tables: Vec<TableSchema>,
    pub node_tables: Vec<String>,
    pub edge_tables: Vec<String>,
    pub warnings: Vec<String>,
}

/// One table: its name, role, columns (as the store describes them) and,
/// on request, its row count.
#[derive(Debug)]
pub struct TableSchema {
    pub name: String,
    pub role: String,
    pub columns: Vec<String>,
    pub count: Option<i64>,
}

/// The tables of the graph, in the order the schema lists them.
pub open spec fn table_names() -> Seq<Seq<char>> {
    seq!["repositories"@, "adr_documents"@, "decisions"@, "constraints"@, "files"@, "symbols"@, "commits"@, "pull_requests"@, "episodes"@, "claims"@, "evidence_anchors"@, "evidence_verifications"@, "decision_code_links"@, "decision_git_links"@, "supersession_edges"@, "temporal_edges"@, "symbol_edges"@, "entity_nodes"@]
}

/// The tables that hold nodes.
pub open spec fn node_table_names() -> Seq<Seq<char>> {
    seq!["repositories"@, "adr_documents"@, "decisions"@, "constraints"@, "files"@, "symbols"@, "commits"@, "pull_requests"@, "episodes"@]
}

/// The tables that hold edges.
pub open spec fn edge_table_names() -> Seq<Seq<char>> {
    seq!["decision_code_links"@, "decision_git_links"@, "supersession_edges"@, "temporal_edges"@, "evidence_anchors"@]
}

/// The role of a table; `unknown` for a table the schema does not list.
pub open spec fn role_of(table: Seq<char>) -> Seq<char> {
    if table == "repositories"@ {
        "tracked repository root"@
    } else
    if table == "adr_documents"@ {
        "parsed ADR source documents"@
    } else
    if table == "decisions"@ {
        "architectural decisions from ADRs or episodes"@
    } else
    if table == "constraints"@ {
        "decision constraints extracted from ADRs or supplied episodes"@
    } else
    if table == "files"@ {
        "tracked source files"@
    } else
    if table == "symbols"@ {
        "tree-sitter symbol index"@
    } else
    if table == "commits"@ {
        "git commit evidence table, currently schema-only"@
    } else
    if table == "pull_requests"@ {
        "pull request evidence table, currently schema-only"@
    } else
    if table == "episodes"@ {
        "raw architectural events and discussions"@
    } else
    if table == "claims"@ {
        "fine-grained verifiable assertions decomposed from decisions and constraints"@
    } else
    if table == "evidence_anchors"@ {
        "content-hashed citation spans backing each claim"@
    } else
    if table == "evidence_verifications"@ {
        "append-only per-anchor freshness checks against the working tree"@
    } else
    if table == "decision_code_links"@ {
        "decision to file or symbol links"@
    } else
    if table == "decision_git_links"@ {
        "decision to commit or PR links, currently schema-only"@
    } else
    if table == "supersession_edges"@ {
        "ADR supersession links"@
    } else
    if table == "temporal_edges"@ {
        "general typed graph edges"@
    } else
    if table == "symbol_edges"@ {
        "symbol call and import relationships"@
    } else
    if table == "entity_nodes"@ {
        "canonical entity identities resolved from ADR and episode mentions"@
    } else {
        "unknown"@
    }
}

/// The tables of the graph.
pub fn graph_tables() -> (v: Vec<String>)
    ensures
        views(v@) == table_names(),
{
    let v = vec![String::from_str("repositories"), String::from_str("adr_documents"), String::from_str("decisions"), String::from_str("constraints"), String::from_str("files"), String::from_str("symbols"), String::from_str("commits"), String::from_str("pull_requests"), String::from_str("episodes"), String::from_str("claims"), String::from_str("evidence_anchors"), String::from_str("evidence_verifications"), String::from_str("decision_code_links"), String::from_str("decision_git_links"), String::from_str("supersession_edges"), String::from_str("temporal_edges"), String::from_str("symbol_edges"), String::from_str("entity_nodes")];
    proof {
        assert(views(v@) =~= table_names());
    }
    v
}

/// The role of a table (`role_of`).
pub fn table_role(table: &str) -> (r: &'static str)
    ensures
        r@ == role_of(table@),
{
    if crate::text::str_eq(table, "repositories") {
        return "tracked repository root";
    }
    if crate::text::str_eq(table, "adr_documents") {
        return "parsed ADR source documents";
    }
    if crate::text::str_eq(table, "decisions") {
        return "architectural decisions from ADRs or episodes";
    }
    if crate::text::str_eq(table, "constraints") {
        return "decision constraints extracted from ADRs or supplied episodes";
    }
    if crate::text::str_eq(table, "files") {
        return "tracked source files";
    }
    if crate::text::str_eq(table, "symbols") {
        return "tree-sitter symbol index";
    }
    if crate::text::str_eq(table, "commits") {
        return "git commit evidence table, currently schema-only";
    }
    if crate::text::str_eq(table, "pull_requests") {
        return "pull request evidence table, currently schema-only";
    }
    if crate::text::str_eq(table, "episodes") {
        return "raw architectural events and discussions";
    }
    if crate::text::str_eq(table, "claims") {
        return "fine-grained verifiable assertions decomposed from decisions and constraints";
    }
    if crate::text::str_eq(table, "evidence_anchors") {
        return "content-hashed citation spans backing each claim";
    }
    if crate::text::str_eq(table, "evidence_verifications") {
        return "append-only per-anchor freshness checks against the working tree";
    }
    if crate::text::str_eq(table, "decision_code_links") {
        return "decision to file or symbol links";
    }
    if crate::text::str_eq(table, "decision_git_links") {
        return "decision to commit or PR links, currently schema-only";
    }
    if crate::text::str_eq(table, "supersession_edges") {
        return "ADR supersession links";
    }
    if crate::text::str_eq(table, "temporal_edges") {
        return "general typed graph edges";
    }
    if crate::text::str_eq(table, "symbol_edges") {
        return "symbol call and import relationships";
    }
    if crate::text::str_eq(table, "entity_nodes") {
        return "canonical entity identities resolved from ADR and episode mentions";
    }
    "unknown"
}

/// The entry for one table.
pub fn table_schema(name: String, columns: Vec<String>, count: Option<i64>) -> (t: TableSchema)
    ensures
        t.name == name,
        t.role@ == role_of(name@),
        t.columns == columns,
        t.count == count,
{
    let role = String::from_str(table_role(name.as_str()));
    TableSchema { name, role, columns, count }
}

/// The schema answer for the given tables: the node and edge tables, and
/// the warning that some tables stay empty until their ingestion exists.
pub fn schema_result(tables: Vec<TableSchema>) -> (r: GetGraphSchemaResult)
    ensures
        r.tables == tables,
        views(r.node_tables@) == node_table_names(),
        views(r.edge_tables@) == edge_table_names(),
        r.warnings@.len() == 1,
        r.warnings@[0]@
            == "temporal_edges, commits, pull_requests, and decision_git_links may be empty until their ingestion tools are implemented"@,
{
    let node_tables = vec![String::from_str("repositories"), String::from_str("adr_documents"), String::from_str("decisions"), String::from_str("constraints"), String::from_str("files"), String::from_str("symbols"), String::from_str("commits"), String::from_str("pull_requests"), String::from_str("episodes")];
    let edge_tables = vec![String::from_str("decision_code_links"), String::from_str("decision_git_links"), String::from_str("supersession_edges"), String::from_str("temporal_edges"), String::from_str("evidence_anchors")];
    proof {
        assert(views(node_tables@) =~= node_table_names());
        assert(views(edge_tables@) =~= edge_table_names());
    }
    GetGraphSchemaResult {
        tables,
        node_tables,
        edge_tables,
        warnings: vec![String::from_str(
            "temporal_edges, commits, pull_requests, and decision_git_links may be empty until their ingestion tools are implemented",
        )],
    }
}

} // verus!
