//! Stale decision detection: the staleness signals, how they accumulate per
//! decision, and the final filtering and ordering. Confidences are whole
//! hundredths: every signal has one of a few fixed levels.

use vstd::prelude::*;

use crate::text::{int_text, push_int, push_str};

verus! {

/// Request to find decisions that may have gone stale.
#[derive(Debug)]
pub struct FindStaleDecisionsParams {
    /// Absolute path to the repository root.
    pub repo_path: String,
    /// ISO-8601 timestamp or git ref; decisions without linked commit activity
    /// after it are flagged. Defaults to 180 days ago.
    pub since: Option<String>,
    /// Minimum confidence, in hundredths, for a decision to be reported.
    pub min_confidence_pct: Option<u32>,
}

/// One reason to think a decision is stale.
#[derive(Debug)]
pub struct StalenessSignal {
    /// `deleted_file`, `missing_symbols`, `aged_adr`, `no_recent_activity`
    /// or `drifted_evidence`.
    pub kind: String,
    pub detail: String,
    /// Confidence in hundredths.
    pub confidence_pct: u32,
}

/// A decision with the signals raised against it.
#[derive(Debug)]
pub struct StaleDecision {
    pub decision_id: String,
    pub adr_id: String,
    pub title: String,
    pub valid_from: String,
    /// The highest confidence among its signals, in hundredths.
    pub confidence_pct: u32,
    pub signals: Vec<StalenessSignal>,
}

/// What `find_stale_decisions` reports.
#[derive(Debug)]
pub struct FindStaleDecisionsResult {
    pub checked_at: String,
    pub since: String,
    pub stale_decisions: Vec<StaleDecision>,
    pub warnings: Vec<String>,
}

// ---------------------------------------------------------------------------
// Signals
// ---------------------------------------------------------------------------

/// A decision's linked file was removed from the index.
pub fn deleted_file_signal(file_path: &str) -> (s: StalenessSignal)
    ensures
        s.kind@ == "deleted_file"@,
        s.detail@ == "linked file '"@ + file_path@ + "' has been removed from the index"@,
        s.confidence_pct == 85,
{
    let mut d = String::new();
    push_str(&mut d, "linked file '");
    push_str(&mut d, file_path);
    push_str(&mut d, "' has been removed from the index");
    StalenessSignal { kind: String::from_str("deleted_file"), detail: d, confidence_pct: 85 }
}

/// A file a decision mentions has no live symbols left.
pub fn missing_symbols_signal(file_path: &str) -> (s: StalenessSignal)
    ensures
        s.kind@ == "missing_symbols"@,
        s.detail@ == "file '"@ + file_path@ + "' has no live symbols — may have been refactored or removed"@,
        s.confidence_pct == 70,
{
    let mut d = String::new();
    push_str(&mut d, "file '");
    push_str(&mut d, file_path);
    push_str(&mut d, "' has no live symbols — may have been refactored or removed");
    StalenessSignal { kind: String::from_str("missing_symbols"), detail: d, confidence_pct: 70 }
}

/// An accepted decision has no linked commit since `since`.
pub fn no_recent_activity_signal(since: &str) -> (s: StalenessSignal)
    ensures
        s.kind@ == "no_recent_activity"@,
        s.detail@ == "no commits linked to this decision since "@ + since@
            + " — may have drifted from implementation"@,
        s.confidence_pct == 45,
{
    let mut d = String::new();
    push_str(&mut d, "no commits linked to this decision since ");
    push_str(&mut d, since);
    push_str(&mut d, " — may have drifted from implementation");
    StalenessSignal { kind: String::from_str("no_recent_activity"), detail: d, confidence_pct: 45 }
}

/// An old accepted ADR that nothing superseded.
pub fn aged_adr_signal(valid_from: &str) -> (s: StalenessSignal)
    ensures
        s.kind@ == "aged_adr"@,
        s.detail@ == "accepted since "@ + valid_from@
            + " and not superseded — consider reviewing for continued relevance"@,
        s.confidence_pct == 35,
{
    let mut d = String::new();
    push_str(&mut d, "accepted since ");
    push_str(&mut d, valid_from);
    push_str(&mut d, " and not superseded — consider reviewing for continued relevance");
    StalenessSignal { kind: String::from_str("aged_adr"), detail: d, confidence_pct: 35 }
}

/// Anchors behind the decision's claims failed re-verification: `unprovable`
/// (80) when some could not be relocated, `affected` (60) otherwise.
pub fn drifted_evidence_signal(stale: i64, unrelocated: i64) -> (s: StalenessSignal)
    ensures
        s.kind@ == "drifted_evidence"@,
        s.detail@ == int_text(stale as int) + " evidence anchor(s) failed re-verification ("@ + (if unrelocated > 0 {
            "unprovable"@
        } else {
            "affected"@
        }) + "); re-run verify_claims and update the ADR if the code has moved on"@,
        s.confidence_pct == (if unrelocated > 0 { 80u32 } else { 60u32 }),
{
    let mut d = String::new();
    push_int(&mut d, stale);
    push_str(&mut d, " evidence anchor(s) failed re-verification (");
    if unrelocated > 0 {
        push_str(&mut d, "unprovable");
    } else {
        push_str(&mut d, "affected");
    }
    push_str(&mut d, "); re-run verify_claims and update the ADR if the code has moved on");
    StalenessSignal {
        kind: String::from_str("drifted_evidence"),
        detail: d,
        confidence_pct: if unrelocated > 0 { 80 } else { 60 },
    }
}

// ---------------------------------------------------------------------------
// Accumulation
// ---------------------------------------------------------------------------

/// The highest confidence among signals.
pub open spec fn max_confidence(signals: Seq<StalenessSignal>) -> u32
    decreases signals.len(),
{
    if signals.len() == 0 {
        0
    } else {
        let rest = max_confidence(signals.drop_last());
        if signals.last().confidence_pct > rest {
            signals.last().confidence_pct
        } else {
            rest
        }
    }
}

/// An entry's confidence is the highest confidence of its signals.
pub open spec fn confidence_is_max(d: StaleDecision) -> bool {
    d.confidence_pct == max_confidence(d.signals@)
}

/// The position of the entry for `id`, if there is one.
pub open spec fn entry_of(ds: Seq<StaleDecision>, id: Seq<char>) -> Option<int> {
    if exists|i: int| 0 <= i < ds.len() && #[trigger] ds[i].decision_id@ == id {
        Some(choose|i: int| 0 <= i < ds.len() && #[trigger] ds[i].decision_id@ == id)
    } else {
        None
    }
}

/// No decision has two entries.
pub open spec fn one_entry_each(ds: Seq<StaleDecision>) -> bool {
    forall|i: int, j: int| 0 <= i < j < ds.len() ==> #[trigger] ds[i].decision_id@ != #[trigger] ds[j].decision_id@
}

/// Adds a signal to the entry of its decision (`add_signal`), creating the
/// entry when the decision has none yet: the entry's confidence becomes the
/// highest of its signals.
pub fn add_signal(
    ds: &mut Vec<StaleDecision>,
    decision_id: &str,
    adr_id: &str,
    title: &str,
    valid_from: &str,
    signal: StalenessSignal,
)
    requires
        one_entry_each(old(ds)@),
    ensures
        one_entry_each(final(ds)@),
        (forall|j: int| 0 <= j < old(ds)@.len() ==> confidence_is_max(#[trigger] old(ds)@[j])) ==> (forall|j: int|
            0 <= j < final(ds)@.len() ==> confidence_is_max(#[trigger] final(ds)@[j])),
        match entry_of(old(ds)@, decision_id@) {
            Some(i) => {
                &&& final(ds)@.len() == old(ds)@.len()
                &&& forall|j: int| 0 <= j < old(ds)@.len() && j != i ==> #[trigger] final(ds)@[j] == old(ds)@[j]
                &&& final(ds)@[i].decision_id == old(ds)@[i].decision_id
                &&& final(ds)@[i].adr_id == old(ds)@[i].adr_id
                &&& final(ds)@[i].title == old(ds)@[i].title
                &&& final(ds)@[i].valid_from == old(ds)@[i].valid_from
                &&& final(ds)@[i].confidence_pct == (if signal.confidence_pct > old(ds)@[i].confidence_pct {
                    signal.confidence_pct
                } else {
                    old(ds)@[i].confidence_pct
                })
                &&& final(ds)@[i].signals@ == old(ds)@[i].signals@.push(signal)
            },
            None => {
                &&& final(ds)@.len() == old(ds)@.len() + 1
                &&& forall|j: int| 0 <= j < old(ds)@.len() ==> #[trigger] final(ds)@[j] == old(ds)@[j]
                &&& final(ds)@.last().decision_id@ == decision_id@
                &&& final(ds)@.last().adr_id@ == adr_id@
                &&& final(ds)@.last().title@ == title@
                &&& final(ds)@.last().valid_from@ == valid_from@
                &&& final(ds)@.last().confidence_pct == signal.confidence_pct
                &&& final(ds)@.last().signals@ == seq![signal]
            },
        },
{
    let mut i: usize = 0;
    while i < ds.len()
        invariant
            i <= ds@.len(),
            ds@ == old(ds)@,
            one_entry_each(old(ds)@),
            forall|j: int| 0 <= j < i ==> (#[trigger] ds@[j]).decision_id@ != decision_id@,
        decreases ds.len() - i,
    {
        if crate::text::str_eq(ds[i].decision_id.as_str(), decision_id) {
            proof {
                assert(exists|k: int| 0 <= k < old(ds)@.len() && #[trigger] old(ds)@[k].decision_id@ == decision_id@) by {
                    assert(old(ds)@[i as int].decision_id@ == decision_id@);
                }
                let k = entry_of(old(ds)@, decision_id@)->0;
                if k != i {
                    if k < i {
                        assert(ds@[k].decision_id@ != decision_id@);
                    } else {
                        assert(old(ds)@[i as int].decision_id@ != old(ds)@[k].decision_id@);
                    }
                }
            }
            let mut e = ds.remove(i);
            if signal.confidence_pct > e.confidence_pct {
                e.confidence_pct = signal.confidence_pct;
            }
            let ghost before_sigs = e.signals@;
            e.signals.push(signal);
            proof {
                assert(e.signals@.drop_last() == before_sigs);
            }
            ds.insert(i, e);
            proof {
                assert forall|j: int| 0 <= j < old(ds)@.len() && j != i implies #[trigger] ds@[j] == old(ds)@[j] by {}
                assert forall|a: int, b: int| 0 <= a < b < ds@.len() implies #[trigger] ds@[a].decision_id@
                    != #[trigger] ds@[b].decision_id@ by {
                    assert(old(ds)@[a].decision_id@ != old(ds)@[b].decision_id@);
                    if a == i {
                        assert(ds@[a].decision_id == old(ds)@[a].decision_id);
                    }
                    if b == i {
                        assert(ds@[b].decision_id == old(ds)@[b].decision_id);
                    }
                }
            }
            return;
        }
        i = i + 1;
    }
    proof {
        assert(entry_of(old(ds)@, decision_id@) is None);
    }
    let e = StaleDecision {
        decision_id: crate::text::string_of(&crate::text::chars_of(decision_id)),
        adr_id: crate::text::string_of(&crate::text::chars_of(adr_id)),
        title: crate::text::string_of(&crate::text::chars_of(title)),
        valid_from: crate::text::string_of(&crate::text::chars_of(valid_from)),
        confidence_pct: signal.confidence_pct,
        signals: vec![signal],
    };
    proof {
        assert(e.signals@.len() == 1);
        assert(e.signals@.drop_last() =~= Seq::<StalenessSignal>::empty());
        assert(max_confidence(e.signals@.drop_last()) == 0);
        assert(e.signals@.last().confidence_pct == e.confidence_pct);
        assert(confidence_is_max(e));
    }
    let ghost before = ds@;
    ds.push(e);
    proof {
        assert(forall|j: int| 0 <= j < before.len() ==> #[trigger] ds@[j] == before[j]);
        assert(ds@[before.len() as int] == e);
    }
}

// ---------------------------------------------------------------------------
// Report
// ---------------------------------------------------------------------------

/// The decisions whose confidence reaches `min_pct`, in order.
pub open spec fn reaching(ds: Seq<StaleDecision>, min_pct: u32) -> Seq<StaleDecision>
    decreases ds.len(),
{
    if ds.len() == 0 {
        Seq::empty()
    } else if ds[0].confidence_pct >= min_pct {
        seq![ds[0]] + reaching(ds.drop_first(), min_pct)
    } else {
        reaching(ds.drop_first(), min_pct)
    }
}

/// The warning when only the age of ADRs points at staleness.
pub open spec fn advisory_warning() -> Seq<char> {
    "aged_adr signal is advisory only — ADR age alone does not indicate staleness"@
}

/// The warning when nothing was found.
pub open spec fn nothing_found_warning() -> Seq<char> {
    "no stale decisions detected — run ingest_symbols and sync_commits_from_git first for full coverage"@
}

/// The reported decisions and warnings: those whose confidence reaches
/// `min_pct`, most confident first; an advisory warning when ADR age is the
/// only activity signal (no decision without recent activity, some aged
/// ADRs), and a warning when nothing is reported.
pub fn stale_report(decisions: Vec<StaleDecision>, min_pct: u32, no_activity_hits: usize, aged_hits: usize) -> (r: (
    Vec<StaleDecision>,
    Vec<String>,
))
    ensures
        r.0@.to_multiset() == reaching(decisions@, min_pct).to_multiset(),
        forall|i: int, j: int| 0 <= i < j < r.0@.len() ==> #[trigger] r.0@[i].confidence_pct >= #[trigger] r.0@[j].confidence_pct,
        r.1@.map_values(|w: String| w@) == (if no_activity_hits == 0 && aged_hits > 0 {
            seq![advisory_warning()]
        } else {
            Seq::empty()
        }) + (if r.0@.len() == 0 { seq![nothing_found_warning()] } else { Seq::empty() }),
{
    let ghost orig = decisions@;
    let mut rest = decisions;
    let mut kept: Vec<StaleDecision> = Vec::new();
    while rest.len() > 0
        invariant
            kept@ + reaching(rest@, min_pct) == reaching(orig, min_pct),
        decreases rest@.len(),
    {
        let ghost before = rest@;
        let d = rest.remove(0);
        proof {
            assert(before.drop_first() == rest@);
        }
        if d.confidence_pct >= min_pct {
            let ghost k0 = kept@;
            kept.push(d);
            proof {
                assert(kept@ + reaching(rest@, min_pct) == k0 + (seq![d] + reaching(rest@, min_pct)));
            }
        }
    }
    proof {
        assert(kept@ + Seq::<StaleDecision>::empty() == kept@);
    }
    let ghost filtered = kept@;
    let mut out: Vec<StaleDecision> = Vec::new();
    proof {
        broadcast use vstd::multiset::group_multiset_axioms;

        out@.to_multiset_ensures();
        vstd::multiset::lemma_multiset_empty_len(out@.to_multiset());
        assert(out@.to_multiset().add(kept@.to_multiset()) =~= kept@.to_multiset());
    }
    while kept.len() > 0
        invariant
            out@.to_multiset().add(kept@.to_multiset()) == filtered.to_multiset(),
            forall|i: int, j: int| 0 <= i < j < out@.len() ==> #[trigger] out@[i].confidence_pct >= #[trigger] out@[j].confidence_pct,
            forall|i: int, j: int| 0 <= i < out@.len() && 0 <= j < kept@.len() ==> #[trigger] out@[i].confidence_pct >= #[trigger] kept@[j].confidence_pct,
        decreases kept@.len(),
    {
        let mut b: usize = 0;
        let mut t: usize = 1;
        while t < kept.len()
            invariant
                0 <= b < t <= kept@.len(),
                forall|u: int| 0 <= u < t ==> #[trigger] kept@[u].confidence_pct <= kept@[b as int].confidence_pct,
            decreases kept@.len() - t,
        {
            if kept[t].confidence_pct > kept[b].confidence_pct {
                b = t;
            }
            t = t + 1;
        }
        let ghost k0 = kept@;
        let ghost o0 = out@;
        let x = kept.remove(b);
        proof {
            broadcast use vstd::multiset::group_multiset_axioms;

            assert(x == k0[b as int]);
            assert(kept@ == k0.remove(b as int));
            k0.to_multiset_ensures();
            o0.to_multiset_ensures();
            let km = k0.to_multiset();
            let om = o0.to_multiset();
            assert(k0.contains(x)) by {
                assert(k0[b as int] == x);
            }
            assert(km.count(x) > 0);
            assert(kept@.to_multiset() =~= km.remove(x));
            assert(o0.push(x).to_multiset() =~= om.insert(x));
            assert(om.insert(x).add(km.remove(x)) =~= om.add(km));
        }
        out.push(x);
        proof {
            assert forall|i: int, j: int| 0 <= i < out@.len() && 0 <= j < kept@.len() implies #[trigger] out@[i].confidence_pct
                >= #[trigger] kept@[j].confidence_pct by {
                let jj = if j < b { j } else { j + 1 };
                assert(kept@[j] == k0[jj]);
                if i < o0.len() {
                    assert(out@[i] == o0[i]);
                }
            }
            assert forall|i: int, j: int| 0 <= i < j < out@.len() implies #[trigger] out@[i].confidence_pct >= #[trigger] out@[j].confidence_pct by {
                if j == o0.len() {
                    assert(out@[i] == o0[i]);
                    assert(out@[j] == k0[b as int]);
                } else {
                    assert(out@[i] == o0[i]);
                    assert(out@[j] == o0[j]);
                }
            }
        }
    }
    proof {
        broadcast use vstd::multiset::group_multiset_axioms;

        kept@.to_multiset_ensures();
        vstd::multiset::lemma_multiset_empty_len(kept@.to_multiset());
        assert(out@.to_multiset() =~= out@.to_multiset().add(kept@.to_multiset()));
    }
    let mut warnings: Vec<String> = Vec::new();
    if no_activity_hits == 0 && aged_hits > 0 {
        let mut w = String::new();
        push_str(&mut w, "aged_adr signal is advisory only — ADR age alone does not indicate staleness");
        warnings.push(w);
    }
    let ghost w1 = warnings@.map_values(|w: String| w@);
    if out.len() == 0 {
        let mut w = String::new();
        push_str(
            &mut w,
            "no stale decisions detected — run ingest_symbols and sync_commits_from_git first for full coverage",
        );
        warnings.push(w);
    }
    proof {
        assert(w1 =~= (if no_activity_hits == 0 && aged_hits > 0 {
            seq![advisory_warning()]
        } else {
            Seq::empty()
        }));
        assert(warnings@.map_values(|w: String| w@) =~= w1 + (if out@.len() == 0 {
            seq![nothing_found_warning()]
        } else {
            Seq::empty()
        }));
    }
    (out, warnings)
}

} // verus!
