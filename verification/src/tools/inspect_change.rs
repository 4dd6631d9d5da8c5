//! Checking a change against the active constraints: which constraints the
//! changed files or the change summary touch, how confident the match is,
//! and when the inspection is refused for drifted evidence.

use vstd::prelude::*;

use crate::scan::split_on;
use crate::text::{contains_seq, str_lowercase, to_lowercase, views, words_longer, words_of};
use crate::tools::freshness::{
    obligation_for, parse_mode_spec, rebuild_obligation, FreshnessManifest, RebuildObligation, VerifyMode,
};
use crate::tools::get_architecture::TemporalContext;

verus! {

/// Request to check a change against the active decisions.
#[derive(Debug)]
pub struct InspectChangeParams {
    /// Absolute path to the repository root.
    pub repo_path: String,
    /// Paths of changed files, relative to the repository root.
    pub files: Vec<String>,
    /// Optional human-readable summary of the change.
    pub change_summary: Option<String>,
    /// Optional symbol names touched by the change.
    pub symbols: Vec<String>,
    /// ISO-8601 timestamp to query as-of. Defaults to current time.
    pub valid_at: Option<String>,
    /// Freshness verification mode; `strict` when absent.
    pub verify: Option<String>,
}

/// A constraint the change may violate.
#[derive(Debug)]
pub struct PossibleViolation {
    pub decision_id: String,
    pub adr_id: String,
    pub constraint: String,
    pub matched_files: Vec<String>,
    pub matched_summary: bool,
    pub confidence: String,
}

/// The answer to a change inspection. `D` is the decision summary the
/// store hands back.
#[derive(Debug)]
pub struct InspectChangeResult<D> {
    pub possible_violations: Vec<PossibleViolation>,
    pub relevant_decisions: Vec<D>,
    /// Freshness of the evidence behind the flagged decisions; absent under
    /// `verify: skip` or when nothing was flagged.
    pub freshness: Option<FreshnessManifest>,
    /// Present when strict mode found drifted evidence on a flagged decision.
    pub refused: Option<RebuildObligation>,
    pub warnings: Vec<String>,
    pub temporal_context: TemporalContext,
}

/// An active constraint and the decision it belongs to.
#[derive(Debug)]
pub struct ConstraintRef {
    pub decision_id: String,
    pub text: String,
}

/// What the check needs of an active decision.
#[derive(Debug)]
pub struct DecisionRef {
    pub id: String,
    pub adr_id: String,
    pub status: String,
}

/// The words of a text once lowercased: its alphanumeric runs of more than
/// three bytes.
pub open spec fn long_words(text: Seq<char>) -> Seq<Seq<char>> {
    words_longer(str_lowercase(text), 3)
}

/// Some constraint word occurs inside some long word of the summary.
pub open spec fn summary_matches(summary: Seq<char>, words: Seq<Seq<char>>) -> bool {
    word_inside(long_words(summary), words)
}

/// Some constraint word occurs inside some word of `lws`.
pub open spec fn word_inside(lws: Seq<Seq<char>>, words: Seq<Seq<char>>) -> bool {
    exists|i: int, j: int|
        0 <= i < words.len() && 0 <= j < lws.len() && contains_seq(#[trigger] lws[j], #[trigger] words[i])
}

/// Some constraint word occurs inside some `/`-separated segment of the
/// lowercased file path.
pub open spec fn file_matches(file: Seq<char>, words: Seq<Seq<char>>) -> bool {
    exists|i: int, j: int|
        0 <= i < words.len() && 0 <= j < split_on(str_lowercase(file), '/').len() && contains_seq(
            #[trigger] split_on(str_lowercase(file), '/')[j],
            #[trigger] words[i],
        )
}

/// The code of `c` lowercased if it is an ASCII capital.
pub open spec fn ascii_lower_code(c: char) -> u32 {
    if 'A' <= c && c <= 'Z' {
        ((c as u32) + 32) as u32
    } else {
        c as u32
    }
}

/// ASCII case-insensitive equality (`str::eq_ignore_ascii_case`).
pub open spec fn eq_ignore_ascii_case(a: Seq<char>, b: Seq<char>) -> bool {
    a.len() == b.len() && forall|i: int| 0 <= i < a.len() ==> #[trigger] ascii_lower_code(a[i]) == ascii_lower_code(b[i])
}

/// The confidence of a match: `low` without constraint words; `medium` when
/// only the summary matched; `high` for a file match against an accepted
/// decision; `medium` otherwise.
pub open spec fn confidence_level(
    no_words: bool,
    matched_summary: bool,
    no_files: bool,
    accepted: bool,
) -> Seq<char> {
    if no_words {
        "low"@
    } else if matched_summary && no_files {
        "medium"@
    } else if accepted {
        "high"@
    } else {
        "medium"@
    }
}

/// The last decision with the given id (later entries replace earlier ones).
pub open spec fn find_decision(ds: Seq<DecisionRef>, id: Seq<char>) -> Option<DecisionRef>
    decreases ds.len(),
{
    if ds.len() == 0 {
        None
    } else if ds.last().id@ == id {
        Some(ds.last())
    } else {
        find_decision(ds.drop_last(), id)
    }
}

/// The changed files that match some of `words`, in order.
pub open spec fn matching_files(files: Seq<Seq<char>>, words: Seq<Seq<char>>) -> Seq<Seq<char>>
    decreases files.len(),
{
    if files.len() == 0 {
        Seq::empty()
    } else if file_matches(files.last(), words) {
        matching_files(files.drop_last(), words).push(files.last())
    } else {
        matching_files(files.drop_last(), words)
    }
}

/// Whether `text` shares a word with the constraint words: some constraint
/// word occurs inside one of its long words.
pub fn text_matches_constraint(text: &str, constraint_words: &Vec<String>) -> (b: bool)
    ensures
        b == summary_matches(text@, views(constraint_words@)),
{
    let lower = to_lowercase(text);
    lowered_text_matches(lower.as_str(), constraint_words)
}

/// Whether some constraint word occurs inside one of the words of more than
/// three bytes of the lowercased text `l`.
pub fn lowered_text_matches(l: &str, constraint_words: &Vec<String>) -> (b: bool)
    ensures
        b == word_inside(words_longer(l@, 3), views(constraint_words@)),
{
    let lc = crate::text::chars_of(l);
    let sw = words_of(&lc, 3);
    let ghost lws = words_longer(l@, 3);
    let ghost ws = views(constraint_words@);
    let mut i: usize = 0;
    while i < constraint_words.len()
        invariant
            i <= constraint_words.len(),
            ws == views(constraint_words@),
            lc@ == l@,
            lws == words_longer(l@, 3),
            sw@.len() == lws.len(),
            forall|k: int| 0 <= k < sw@.len() ==> #[trigger] sw@[k]@ == lws[k],
            forall|a: int, j: int|
                0 <= a < i && 0 <= j < lws.len() ==> !contains_seq(
                    #[trigger] lws[j],
                    #[trigger] ws[a],
                ),
        decreases constraint_words.len() - i,
    {
        let w = crate::text::chars_of(constraint_words[i].as_str());
        let mut j: usize = 0;
        while j < sw.len()
            invariant
                j <= sw.len(),
                i < constraint_words.len(),
                ws == views(constraint_words@),
                w@ == ws[i as int],
                lws == words_longer(l@, 3),
                sw@.len() == lws.len(),
                forall|k: int| 0 <= k < sw@.len() ==> #[trigger] sw@[k]@ == lws[k],
                forall|k: int| 0 <= k < j ==> !contains_seq(#[trigger] lws[k], ws[i as int]),
            decreases sw.len() - j,
        {
            let c = crate::text::chars_of(sw[j].as_str());
            if crate::text::contains_chars(&c, &w) {
                proof {
                    assert(contains_seq(lws[j as int], ws[i as int]));
                }
                return true;
            }
            j = j + 1;
        }
        i = i + 1;
    }
    false
}

fn file_matches_exec(file: &str, words: &Vec<String>) -> (b: bool)
    ensures
        b == file_matches(file@, views(words@)),
{
    let lower = to_lowercase(file);
    let lc = crate::text::chars_of(lower.as_str());
    let segs = crate::scan::split_on_char(&lc, '/');
    let ghost ws = views(words@);
    let ghost ss = split_on(str_lowercase(file@), '/');
    let mut i: usize = 0;
    while i < words.len()
        invariant
            i <= words.len(),
            ws == views(words@),
            ss == split_on(str_lowercase(file@), '/'),
            segs@.len() == ss.len(),
            forall|k: int| 0 <= k < segs@.len() ==> #[trigger] segs@[k]@ == ss[k],
            forall|a: int, j: int| 0 <= a < i && 0 <= j < ss.len() ==> !contains_seq(#[trigger] ss[j], #[trigger] ws[a]),
        decreases words.len() - i,
    {
        let w = crate::text::chars_of(words[i].as_str());
        let mut j: usize = 0;
        while j < segs.len()
            invariant
                j <= segs.len(),
                i < words.len(),
                ws == views(words@),
                w@ == ws[i as int],
                ss == split_on(str_lowercase(file@), '/'),
                segs@.len() == ss.len(),
                forall|k: int| 0 <= k < segs@.len() ==> #[trigger] segs@[k]@ == ss[k],
                forall|k: int| 0 <= k < j ==> !contains_seq(#[trigger] ss[k], ws[i as int]),
            decreases segs.len() - j,
        {
            if crate::text::contains_chars(&segs[j], &w) {
                proof {
                    assert(segs@[j as int]@ == ss[j as int]);
                    assert(contains_seq(split_on(str_lowercase(file@), '/')[j as int], views(words@)[i as int]));
                }
                return true;
            }
            j = j + 1;
        }
        i = i + 1;
    }
    false
}

fn ascii_ci_eq(a: &str, b: &str) -> (r: bool)
    ensures
        r == eq_ignore_ascii_case(a@, b@),
{
    let x = crate::text::chars_of(a);
    let y = crate::text::chars_of(b);
    if x.len() != y.len() {
        return false;
    }
    let mut i: usize = 0;
    while i < x.len()
        invariant
            i <= x.len(),
            x.len() == y.len(),
            x@ == a@,
            y@ == b@,
            forall|k: int| 0 <= k < i ==> #[trigger] ascii_lower_code(x@[k]) == ascii_lower_code(y@[k]),
        decreases x.len() - i,
    {
        let c = x[i];
        let d = y[i];
        let lc: u32 = if 'A' <= c && c <= 'Z' { (c as u32) + 32 } else { c as u32 };
        let ld: u32 = if 'A' <= d && d <= 'Z' { (d as u32) + 32 } else { d as u32 };
        proof {
            assert(lc == ascii_lower_code(x@[i as int]));
            assert(ld == ascii_lower_code(y@[i as int]));
        }
        if lc != ld {
            return false;
        }
        i = i + 1;
    }
    true
}

fn lookup_decision<'a>(ds: &'a Vec<DecisionRef>, id: &str) -> (r: Option<&'a DecisionRef>)
    ensures
        match r {
            Some(d) => find_decision(ds@, id@) == Some(*d),
            None => find_decision(ds@, id@) is None,
        },
{
    let mut i: usize = ds.len();
    proof {
        assert(ds@.take(ds.len() as int) == ds@);
    }
    while i > 0
        invariant
            i <= ds.len(),
            find_decision(ds@, id@) == find_decision(ds@.take(i as int), id@),
        decreases i,
    {
        proof {
            assert(ds@.take(i as int).drop_last() == ds@.take(i - 1));
            assert(ds@.take(i as int).last() == ds@[i - 1]);
        }
        if crate::text::str_eq(ds[i - 1].id.as_str(), id) {
            return Some(&ds[i - 1]);
        }
        i = i - 1;
    }
    proof {
        assert(ds@.take(0) == Seq::<DecisionRef>::empty());
    }
    None
}

/// Whether the decision is accepted (`status` is `accepted`, ignoring ASCII
/// case).
pub open spec fn is_accepted(d: Option<DecisionRef>) -> bool {
    match d {
        Some(x) => eq_ignore_ascii_case(x.status@, "accepted"@),
        None => false,
    }
}

/// The ADR a violation is reported under: the decision's, or the decision id
/// itself when the decision is not among the active ones.
pub open spec fn adr_of(d: Option<DecisionRef>, decision_id: Seq<char>) -> Seq<char> {
    match d {
        Some(x) => x.adr_id@,
        None => decision_id,
    }
}

/// What a violation reports: decision id, ADR id, constraint text, matched
/// files, whether the summary matched, and the confidence.
pub type ViolationView = (Seq<char>, Seq<char>, Seq<char>, Seq<Seq<char>>, bool, Seq<char>);

/// A violation by its contents.
pub open spec fn violation_view(p: PossibleViolation) -> ViolationView {
    (p.decision_id@, p.adr_id@, p.constraint@, views(p.matched_files@), p.matched_summary, p.confidence@)
}

/// The assessment of one constraint against the change: none when neither a
/// changed file nor the summary matches its words; otherwise the matches and
/// their confidence.
pub open spec fn assessment(
    c: ConstraintRef,
    ds: Seq<DecisionRef>,
    files: Seq<Seq<char>>,
    summary: Option<Seq<char>>,
) -> Option<ViolationView> {
    assessment_by_words(c, ds, files, summary, long_words(c.text@))
}

/// `assessment` once the constraint's words (its lowercased words of more
/// than three bytes) are known.
pub open spec fn assessment_by_words(
    c: ConstraintRef,
    ds: Seq<DecisionRef>,
    files: Seq<Seq<char>>,
    summary: Option<Seq<char>>,
    words: Seq<Seq<char>>,
) -> Option<ViolationView> {
    let ms = match summary {
        Some(s) => summary_matches(s, words),
        None => false,
    };
    let mf = matching_files(files, words);
    let d = find_decision(ds, c.decision_id@);
    if mf.len() == 0 && !ms {
        None
    } else {
        Some(
            (
                c.decision_id@,
                adr_of(d, c.decision_id@),
                c.text@,
                mf,
                ms,
                confidence_level(words.len() == 0, ms, mf.len() == 0, is_accepted(d)),
            ),
        )
    }
}

/// An optional violation by its contents.
pub open spec fn opt_violation_view(v: Option<PossibleViolation>) -> Option<ViolationView> {
    match v {
        Some(p) => Some(violation_view(p)),
        None => None,
    }
}

/// The optional summary, by its characters.
pub open spec fn summary_view(s: Option<String>) -> Option<Seq<char>> {
    match s {
        Some(t) => Some(t@),
        None => None,
    }
}

/// Some violation in `vs` is about the same decision and constraint text.
pub open spec fn has_key(vs: Seq<ViolationView>, decision_id: Seq<char>, text: Seq<char>) -> bool {
    exists|k: int| 0 <= k < vs.len() && #[trigger] vs[k].0 == decision_id && vs[k].2 == text
}

/// The violations of all constraints, one per decision and constraint text
/// (the first constraint with that pair decides), in the order the
/// constraints come.
pub open spec fn collected(
    cs: Seq<ConstraintRef>,
    ds: Seq<DecisionRef>,
    files: Seq<Seq<char>>,
    summary: Option<Seq<char>>,
) -> Seq<ViolationView>
    decreases cs.len(),
{
    if cs.len() == 0 {
        Seq::empty()
    } else {
        let r = collected(cs.drop_last(), ds, files, summary);
        match assessment(cs.last(), ds, files, summary) {
            Some(t) => if has_key(r, t.0, t.2) {
                r
            } else {
                r.push(t)
            },
            None => r,
        }
    }
}

/// Checks one constraint against the changed files and the change summary.
pub fn assess_constraint(
    c: &ConstraintRef,
    decisions: &Vec<DecisionRef>,
    changed_files: &Vec<String>,
    change_summary: &Option<String>,
) -> (v: Option<PossibleViolation>)
    ensures
        opt_violation_view(v) == assessment(*c, decisions@, views(changed_files@), summary_view(*change_summary)),
{
    let lower = to_lowercase(c.text.as_str());
    let lc = crate::text::chars_of(lower.as_str());
    let words = words_of(&lc, 3);
    proof {
        assert(views(words@) =~= long_words(c.text@));
    }
    assess_by_words(c, decisions, changed_files, change_summary, &words)
}

/// Checks one constraint, whose words (its lowercased words of more than
/// three bytes) are `words`, against the changed files and the change
/// summary (`assessment_by_words`).
pub fn assess_by_words(
    c: &ConstraintRef,
    decisions: &Vec<DecisionRef>,
    changed_files: &Vec<String>,
    change_summary: &Option<String>,
    words: &Vec<String>,
) -> (v: Option<PossibleViolation>)
    ensures
        opt_violation_view(v) == assessment_by_words(
            *c,
            decisions@,
            views(changed_files@),
            summary_view(*change_summary),
            views(words@),
        ),
{
    let matched_summary = match change_summary {
        Some(s) => text_matches_constraint(s.as_str(), words),
        None => false,
    };
    let ghost fs = views(changed_files@);
    let mut matched_files: Vec<String> = Vec::new();
    let mut i: usize = 0;
    proof {
        assert(fs.take(0) =~= Seq::<Seq<char>>::empty());
        assert(views(matched_files@) =~= Seq::<Seq<char>>::empty());
    }
    while i < changed_files.len()
        invariant
            i <= changed_files.len(),
            fs == views(changed_files@),
            views(matched_files@) == matching_files(fs.take(i as int), views(words@)),
        decreases changed_files.len() - i,
    {
        proof {
            assert(fs.take(i + 1).drop_last() == fs.take(i as int));
            assert(fs.take(i + 1).last() == changed_files@[i as int]@);
        }
        if file_matches_exec(changed_files[i].as_str(), words) {
            let f = crate::text::copy_string(&changed_files[i]);
            proof {
                assert(views(matched_files@.push(f)) =~= views(matched_files@).push(f@));
            }
            matched_files.push(f);
        }
        i = i + 1;
    }
    proof {
        assert(fs.take(changed_files.len() as int) == fs);
    }
    if matched_files.len() == 0 && !matched_summary {
        proof {
            assert(views(matched_files@).len() == 0);
        }
        return None;
    }
    let d = lookup_decision(decisions, c.decision_id.as_str());
    let (adr_id, accepted) = match d {
        Some(x) => (crate::text::copy_string(&x.adr_id), ascii_ci_eq(x.status.as_str(), "accepted")),
        None => (crate::text::copy_string(&c.decision_id), false),
    };
    let confidence = if words.len() == 0 {
        String::from_str("low")
    } else if matched_summary && matched_files.len() == 0 {
        String::from_str("medium")
    } else if accepted {
        String::from_str("high")
    } else {
        String::from_str("medium")
    };
    proof {
        assert(views(words@).len() == words@.len());
        assert(views(matched_files@).len() == matched_files@.len());
    }
    Some(PossibleViolation {
        decision_id: crate::text::copy_string(&c.decision_id),
        adr_id,
        constraint: crate::text::copy_string(&c.text),
        matched_files,
        matched_summary,
        confidence,
    })
}


/// The possible violations of a change (`collected`): every constraint is
/// checked, and a decision's constraint text is reported once.
pub fn collect_violations(
    constraints: &Vec<ConstraintRef>,
    decisions: &Vec<DecisionRef>,
    changed_files: &Vec<String>,
    change_summary: &Option<String>,
) -> (out: Vec<PossibleViolation>)
    ensures
        out@.map_values(|p: PossibleViolation| violation_view(p)) == collected(
            constraints@,
            decisions@,
            views(changed_files@),
            summary_view(*change_summary),
        ),
{
    let ghost fs = views(changed_files@);
    let ghost sm = summary_view(*change_summary);
    let mut out: Vec<PossibleViolation> = Vec::new();
    let mut i: usize = 0;
    proof {
        assert(constraints@.take(0) =~= Seq::<ConstraintRef>::empty());
        assert(out@.map_values(|p: PossibleViolation| violation_view(p)) =~= Seq::<ViolationView>::empty());
    }
    while i < constraints.len()
        invariant
            i <= constraints.len(),
            fs == views(changed_files@),
            sm == summary_view(*change_summary),
            out@.map_values(|p: PossibleViolation| violation_view(p)) == collected(
                constraints@.take(i as int),
                decisions@,
                fs,
                sm,
            ),
        decreases constraints.len() - i,
    {
        let ghost before = out@.map_values(|p: PossibleViolation| violation_view(p));
        proof {
            assert(constraints@.take(i + 1).drop_last() == constraints@.take(i as int));
            assert(constraints@.take(i + 1).last() == constraints@[i as int]);
        }
        match assess_constraint(&constraints[i], decisions, changed_files, change_summary) {
            Some(p) => {
                let mut seen = false;
                let mut k: usize = 0;
                while k < out.len()
                    invariant
                        k <= out.len(),
                        before == out@.map_values(|p: PossibleViolation| violation_view(p)),
                        seen == exists|j: int| 0 <= j < k && #[trigger] before[j].0 == p.decision_id@ && before[j].2 == p.constraint@,
                    decreases out.len() - k,
                {
                    let same = crate::text::str_eq(out[k].decision_id.as_str(), p.decision_id.as_str())
                        && crate::text::str_eq(out[k].constraint.as_str(), p.constraint.as_str());
                    proof {
                        assert(before[k as int] == violation_view(out@[k as int]));
                        if same {
                            assert(before[k as int].0 == p.decision_id@ && before[k as int].2 == p.constraint@);
                        }
                    }
                    if same {
                        seen = true;
                    }
                    k = k + 1;
                }
                proof {
                    assert(seen == has_key(before, p.decision_id@, p.constraint@));
                }
                if !seen {
                    proof {
                        assert(out@.push(p).map_values(|q: PossibleViolation| violation_view(q)) =~= before.push(violation_view(p)));
                    }
                    out.push(p);
                }
            },
            None => {},
        }
        i = i + 1;
    }
    proof {
        assert(constraints@.take(constraints.len() as int) == constraints@);
    }
    out
}
// ---------------------------------------------------------------------------
// Freshness of the flagged decisions
// ---------------------------------------------------------------------------

/// The verification mode of a change inspection: the requested one, and
/// `strict` when none is requested, so that by default a change is not let
/// through against a decision whose evidence drifted.
pub fn inspect_verify_mode(verify: Option<&str>) -> (m: VerifyMode)
    ensures
        verify matches Some(v) ==> m == parse_mode_spec(Some(v@)),
        verify is None ==> m == VerifyMode::Strict,
{
    match verify {
        Some(v) => VerifyMode::parse(Some(v)),
        None => VerifyMode::Strict,
    }
}

/// The refusal of a change inspection (`refused`): the rebuild obligation of
/// the manifest in strict mode, when a flagged decision's evidence drifted.
pub fn inspect_refusal(manifest: &FreshnessManifest, repo_path: &str, mode: VerifyMode) -> (r: Option<RebuildObligation>)
    ensures
        r is Some <==> mode == VerifyMode::Strict && manifest.stale_claims@.len() > 0,
        r matches Some(o) ==> obligation_for(o, *manifest, repo_path@),
{
    if mode == VerifyMode::Strict {
        rebuild_obligation(manifest, repo_path)
    } else {
        None
    }
}

} // verus!
