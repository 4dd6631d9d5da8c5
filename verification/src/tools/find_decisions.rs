//! Finding the decisions that govern a piece of code: the request, its
//! target, and the check that some target is given.

use vstd::prelude::*;

verus! {

/// Which timeline an as-of timestamp applies to.
#[derive(Debug, Clone, Copy, PartialEq, Eq, Structural)]
pub enum TemporalMode {
    /// When the decision held in the world (the default).
    Event,
    /// When the index learnt of it.
    Ingestion,
}

/// The timeline used when the request does not say.
pub fn default_temporal_mode() -> (m: TemporalMode)
    ensures
        m == TemporalMode::Event,
{
    TemporalMode::Event
}

/// Request for the decisions that govern a piece of code.
#[derive(Debug)]
pub struct FindDecisionsForCodeParams {
    /// Absolute path to the git repository root.
    pub repo_path: String,
    /// The code entity to resolve. Provide at least one field.
    pub target: Target,
    /// ISO-8601 timestamp to query as-of. Defaults to current time if omitted.
    pub valid_at: Option<String>,
    /// Which timeline `valid_at` applies to.
    pub temporal_mode: TemporalMode,
    /// Return full decision and constraint text instead of snippets.
    pub include_full_text: bool,
    /// Freshness verification mode: `cached` (default), `fresh`, `skip`, or `strict`.
    pub verify: Option<String>,
}

/// The code entity whose decisions are wanted.
#[derive(Debug)]
pub struct Target {
    /// File path relative to the repository root.
    pub file: Option<String>,
    /// Symbol name.
    pub symbol: Option<String>,
    /// Module name.
    pub module: Option<String>,
    /// Service name.
    pub service: Option<String>,
}

/// A target names at least one of a file, a symbol, a module or a service.
pub fn target_given(t: &Target) -> (b: bool)
    ensures
        b == (t.file is Some || t.symbol is Some || t.module is Some || t.service is Some),
{
    t.file.is_some() || t.symbol.is_some() || t.module.is_some() || t.service.is_some()
}

} // verus!
