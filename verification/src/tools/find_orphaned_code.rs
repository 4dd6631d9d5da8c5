//! Code with no governing decision: the report entries for orphaned files
//! and symbols.

use vstd::prelude::*;

use crate::tools::trace_call_path::{anchor_text, symbol_anchor};

verus! {

/// Request for code that no decision governs.
#[derive(Debug)]
pub struct FindOrphanedCodeParams {
    pub repo_path: String,
    /// Only paths under this prefix (relative to the repository root).
    pub path_prefix: Option<String>,
}

/// Orphaned files and symbols, with the totals examined.
#[derive(Debug)]
pub struct FindOrphanedCodeResult {
    pub orphaned_files: Vec<OrphanedFile>,
    pub orphaned_symbols: Vec<OrphanedSymbol>,
    pub total_files: i64,
    pub total_symbols: i64,
    pub warnings: Vec<String>,
}

/// A file no decision is linked to.
#[derive(Debug)]
pub struct OrphanedFile {
    pub path: String,
    pub reason: String,
}

/// A symbol no constraint or decision governs.
#[derive(Debug)]
pub struct OrphanedSymbol {
    pub name: String,
    pub kind: String,
    pub file: String,
    pub line: Option<i64>,
    pub reason: String,
    /// Compact location anchor: "file:line name"
    pub anchor: String,
}

/// The report entry for an orphaned file.
pub fn orphaned_file(path: String) -> (f: OrphanedFile)
    ensures
        f.path == path,
        f.reason@ == "no linked ADRs or decisions"@,
{
    OrphanedFile { path, reason: String::from_str("no linked ADRs or decisions") }
}

/// The report entry for an orphaned symbol, with its anchor.
pub fn orphaned_symbol(name: String, kind: String, file: String, line: Option<i64>) -> (s: OrphanedSymbol)
    ensures
        s.name == name,
        s.kind == kind,
        s.file == file,
        s.line == line,
        s.anchor@ == anchor_text(file@, line, name@),
        s.reason@ == "no governing constraints or decision links"@,
{
    let anchor = symbol_anchor(file.as_str(), line, name.as_str());
    OrphanedSymbol {
        name,
        kind,
        file,
        line,
        reason: String::from_str("no governing constraints or decision links"),
        anchor,
    }
}

} // verus!
