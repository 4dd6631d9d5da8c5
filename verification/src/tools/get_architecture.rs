//! The architecture overview: communities, active decisions, and the
//! warnings and answer built from the repository's counts.

use std::collections::BTreeMap;

use vstd::prelude::*;

use crate::text::{decimal, int_text, push_decimal, push_int, push_str};

verus! {

/// The most communities an overview lists.
pub const MAX_COMMUNITIES: usize = 30;

/// The timeline an answer was produced for.
#[derive(Debug)]
pub struct TemporalContext {
    pub valid_at: Option<String>,
    pub ingested_at: Option<String>,
}

/// Request for an architecture overview.
#[derive(Debug)]
pub struct GetArchitectureParams {
    pub repo_path: String,
    pub valid_at: Option<String>,
}

/// A detected community of symbols.
#[derive(Debug)]
pub struct CommunitySummary {
    pub label: String,
    pub size: usize,
    pub central_symbols: Vec<String>,
}

/// An active decision.
#[derive(Debug)]
pub struct DecisionRef {
    pub id: String,
    pub title: String,
    pub status: String,
}

/// The overview of a repository.
#[derive(Debug)]
pub struct GetArchitectureResult {
    pub answer: String,
    pub repo_path: String,
    pub counts: BTreeMap<String, i64>,
    pub active_decisions: Vec<DecisionRef>,
    pub communities: Vec<CommunitySummary>,
    pub total_communities: usize,
    pub warnings: Vec<String>,
    pub temporal_context: TemporalContext,
}

/// The summary of a community: its label and size, and at most its first
/// five symbol names.
pub fn community_summary(label: String, size: usize, symbols: Vec<String>) -> (c: CommunitySummary)
    ensures
        c.label == label,
        c.size == size,
        c.central_symbols@ == (if symbols@.len() <= 5 { symbols@ } else { symbols@.take(5) }),
{
    let mut central_symbols = symbols;
    central_symbols.truncate(5);
    CommunitySummary { label, size, central_symbols }
}

/// The communities an overview lists: at most the first `MAX_COMMUNITIES`.
pub fn listed_communities(all: Vec<CommunitySummary>) -> (v: Vec<CommunitySummary>)
    ensures
        v@ == (if all@.len() <= MAX_COMMUNITIES { all@ } else { all@.take(MAX_COMMUNITIES as int) }),
{
    let mut v = all;
    v.truncate(MAX_COMMUNITIES);
    v
}

/// The warnings of an overview: no active decisions, no indexed symbols,
/// no temporal edges, in that order, for those that hold.
pub fn architecture_warnings(active_decisions: usize, symbols: i64, temporal_edges: i64) -> (w: Vec<String>)
    ensures
        w@.map_values(|s: String| s@) == (if active_decisions == 0 {
            seq!["no active decisions found; run sync_adrs_from_git or record_decision_episode"@]
        } else {
            Seq::empty()
        }) + (if symbols == 0 {
            seq!["no symbols indexed; run ingest_symbols for code-level lookup"@]
        } else {
            Seq::empty()
        }) + (if temporal_edges == 0 {
            seq!["general temporal graph edges are not populated yet"@]
        } else {
            Seq::empty()
        }),
{
    let mut w: Vec<String> = Vec::new();
    let ghost a = if active_decisions == 0 {
        seq!["no active decisions found; run sync_adrs_from_git or record_decision_episode"@]
    } else {
        Seq::<Seq<char>>::empty()
    };
    let ghost b = if symbols == 0 {
        seq!["no symbols indexed; run ingest_symbols for code-level lookup"@]
    } else {
        Seq::<Seq<char>>::empty()
    };
    let ghost c = if temporal_edges == 0 {
        seq!["general temporal graph edges are not populated yet"@]
    } else {
        Seq::<Seq<char>>::empty()
    };
    if active_decisions == 0 {
        w.push(String::from_str("no active decisions found; run sync_adrs_from_git or record_decision_episode"));
    }
    proof {
        assert(w@.map_values(|s: String| s@) =~= a);
    }
    if symbols == 0 {
        w.push(String::from_str("no symbols indexed; run ingest_symbols for code-level lookup"));
    }
    proof {
        assert(w@.map_values(|s: String| s@) =~= a + b);
    }
    if temporal_edges == 0 {
        w.push(String::from_str("general temporal graph edges are not populated yet"));
    }
    proof {
        assert(w@.map_values(|s: String| s@) =~= a + b + c);
    }
    w
}

/// The one-sentence answer of an overview.
pub open spec fn answer_text(active: nat, constraints: int, symbols: int, communities: nat) -> Seq<char> {
    "Repository has "@ + decimal(active) + " active decision(s), "@ + int_text(constraints)
        + " constraint(s), "@ + int_text(symbols) + " indexed symbol(s), and "@ + decimal(
        communities,
    ) + " detected communit(y/ies)"@ + (if communities > MAX_COMMUNITIES {
        " (showing top "@ + decimal(MAX_COMMUNITIES as nat) + ")"@
    } else {
        Seq::empty()
    }) + "."@
}

/// Writes the answer of an overview (`answer_text`).
pub fn architecture_answer(active: usize, constraints: i64, symbols: i64, communities: usize) -> (s: String)
    ensures
        s@ == answer_text(active as nat, constraints as int, symbols as int, communities as nat),
{
    let mut s = String::from_str("Repository has ");
    push_decimal(&mut s, active as u64);
    push_str(&mut s, " active decision(s), ");
    push_int(&mut s, constraints);
    push_str(&mut s, " constraint(s), ");
    push_int(&mut s, symbols);
    push_str(&mut s, " indexed symbol(s), and ");
    push_decimal(&mut s, communities as u64);
    push_str(&mut s, " detected communit(y/ies)");
    let ghost before = s@;
    if communities > MAX_COMMUNITIES {
        push_str(&mut s, " (showing top ");
        push_decimal(&mut s, MAX_COMMUNITIES as u64);
        push_str(&mut s, ")");
    }
    proof {
        let tail = if communities > MAX_COMMUNITIES {
            " (showing top "@ + decimal(MAX_COMMUNITIES as nat) + ")"@
        } else {
            Seq::<char>::empty()
        };
        assert(s@ =~= before + tail);
    }
    push_str(&mut s, ".");
    s
}

} // verus!
