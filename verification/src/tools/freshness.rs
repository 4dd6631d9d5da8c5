//! Freshness of the evidence behind claims: the verification mode a caller
//! asks for, the three-state disposition of a claim over its verified anchors,
//! the manifest assembled from them, the strict-mode rebuild obligation,
//! index-lane capabilities, the resolved `HEAD`, view hashes, and the
//! repo-wide staleness warning.

use vstd::prelude::*;

use crate::hashing::{sha256_hex, sha256_hex_spec};
use crate::ids::{decision_uuids, uuids_of};
use crate::text::{
    chars_of, decimal, push_char, push_decimal, push_str, str_eq, str_lowercase, to_lowercase, trim, trim_spec, views,
};

verus! {

// ---------------------------------------------------------------------------
// Vocabulary
// ---------------------------------------------------------------------------

/// How a retrieval tool treats the evidence behind its answer.
#[derive(Clone, Copy, Debug, PartialEq, Eq, Structural)]
pub enum VerifyMode {
    Cached,
    Fresh,
    Skip,
    Strict,
}

/// Whether an anchor still matches the working tree.
#[derive(Clone, Copy, Debug, PartialEq, Eq, Structural)]
pub enum Freshness {
    Fresh,
    Stale,
}

/// How the cited span changed since it was anchored.
#[derive(Clone, Copy, Debug, PartialEq, Eq, Structural)]
pub enum EditClass {
    Unchanged,
    Shifted,
    Affected,
    Deleted,
}

/// Three-state disposition of a claim over all of its anchors.
#[derive(Clone, Copy, Debug, PartialEq, Eq, Structural)]
pub enum Disposition {
    Unaffected,
    Affected,
    Unprovable,
}

/// The kind of source an anchor cites.
#[derive(Clone, Copy, Debug, PartialEq, Eq, Structural)]
pub enum AnchorSource {
    Adr,
    SourceFile,
    Symbol,
    Commit,
    Episode,
    Pr,
}

/// Where inside the cited source the anchored span sits.
#[derive(Clone, Debug)]
#[allow(inconsistent_fields)]
pub enum Locator {
    Section { name: String },
    Lines { start: u32, end: u32 },
    Chars { start: usize, end: usize },
    SymbolQn { qn: String },
}

/// The stable identity of a cited source.
#[derive(Clone, Debug)]
pub struct AnchorIdentity {
    pub source_kind: AnchorSource,
    pub source_uri: String,
    pub subpath: String,
}

/// A content-hashed citation backing one claim.
#[derive(Clone, Debug)]
pub struct EvidenceAnchor {
    pub id: String,
    pub claim_id: String,
    pub identity: AnchorIdentity,
    pub locator: Locator,
    pub anchored_text: String,
    pub content_hash: String,
}

/// The latest verification of an anchor against the working tree.
#[derive(Clone, Debug)]
pub struct AnchorVerification {
    pub anchor_id: String,
    pub checked_at: String,
    pub repo_ref: String,
    pub repo_commit: String,
    pub edit_class: EditClass,
    pub freshness: Freshness,
    /// The anchor's content hash, when the anchor is fresh.
    pub observed_hash: Option<String>,
    pub relocated_locator: Option<Locator>,
    pub detail: Option<String>,
}

/// An anchor together with its resolved verification.
#[derive(Clone, Debug)]
pub struct AnchorState {
    pub anchor: EvidenceAnchor,
    pub verification: AnchorVerification,
}

/// A drifted anchor reported in a freshness manifest.
#[derive(Clone, Debug)]
pub struct StaleAnchorDetail {
    pub anchor_id: String,
    pub identity: AnchorIdentity,
    pub edit_class: String,
    pub freshness: String,
    pub relocated_locator: Option<Locator>,
    pub detail: Option<String>,
}

/// A claim on the answer path whose disposition is not `unaffected`.
#[derive(Clone, Debug)]
pub struct StaleClaim {
    pub claim_id: String,
    pub subject_type: String,
    pub subject_id: String,
    pub decision_id: Option<String>,
    pub adr_id: Option<String>,
    pub text: String,
    pub evidence_grade: String,
    pub disposition: String,
    pub anchors: Vec<StaleAnchorDetail>,
}

/// Freshness of one index lane against the current `HEAD`.
#[derive(Clone, Debug)]
pub struct LaneStatus {
    pub lane: String,
    pub last_ingested_commit: Option<String>,
    pub lag_commits: Option<u32>,
    pub status: String,
    pub capabilities: Vec<String>,
}

/// The per-view freshness manifest attached to a retrieval answer.
#[derive(Clone, Debug)]
pub struct FreshnessManifest {
    pub evaluated_at: String,
    pub repo_ref: String,
    pub repo_commit: String,
    pub anchors_total: usize,
    pub unaffected: usize,
    pub affected: usize,
    pub unprovable: usize,
    pub stale_claims: Vec<StaleClaim>,
    pub incomplete_claims: Vec<IncompleteClaim>,
    pub lanes: Vec<LaneStatus>,
    pub warnings: Vec<String>,
}

impl FreshnessManifest {
    /// The number of claims under each disposition, keyed by its name, in
    /// the order of the names.
    pub fn by_disposition(&self) -> (r: Vec<(String, usize)>)
        ensures
            r@.len() == 3,
            r@[0].0@ == "affected"@ && r@[0].1 == self.affected,
            r@[1].0@ == "unaffected"@ && r@[1].1 == self.unaffected,
            r@[2].0@ == "unprovable"@ && r@[2].1 == self.unprovable,
    {
        let mut r: Vec<(String, usize)> = Vec::new();
        r.push((String::from_str("affected"), self.affected));
        r.push((String::from_str("unaffected"), self.unaffected));
        r.push((String::from_str("unprovable"), self.unprovable));
        r
    }
}

/// A claim whose anchors leave part of what it read uncovered.
#[derive(Clone, Debug)]
pub struct IncompleteClaim {
    pub claim_id: String,
    pub text: String,
    pub uncovered: Vec<AnchorIdentity>,
}

/// What strict mode hands back in place of an answer it cannot prove.
#[derive(Clone, Debug)]
pub struct RebuildObligation {
    pub reason: String,
    pub drifted_anchors: Vec<String>,
    pub commands: Vec<String>,
}

/// The repository state a verification runs against.
#[derive(Clone, Debug)]
pub struct HeadRef {
    pub repo_ref: String,
    pub repo_commit: String,
}

// ---------------------------------------------------------------------------
// Names
// ---------------------------------------------------------------------------

impl Disposition {
    pub open spec fn name(self) -> Seq<char> {
        match self {
            Disposition::Unaffected => "unaffected"@,
            Disposition::Affected => "affected"@,
            Disposition::Unprovable => "unprovable"@,
        }
    }

    pub fn as_str(&self) -> (s: &'static str)
        ensures
            s@ == self.name(),
    {
        match self {
            Disposition::Unaffected => "unaffected",
            Disposition::Affected => "affected",
            Disposition::Unprovable => "unprovable",
        }
    }
}

impl Freshness {
    pub open spec fn name(self) -> Seq<char> {
        match self {
            Freshness::Fresh => "fresh"@,
            Freshness::Stale => "stale"@,
        }
    }

    pub fn as_str(&self) -> (s: &'static str)
        ensures
            s@ == self.name(),
    {
        match self {
            Freshness::Fresh => "fresh",
            Freshness::Stale => "stale",
        }
    }
}

impl EditClass {
    pub open spec fn name(self) -> Seq<char> {
        match self {
            EditClass::Unchanged => "unchanged"@,
            EditClass::Shifted => "shifted"@,
            EditClass::Affected => "affected"@,
            EditClass::Deleted => "deleted"@,
        }
    }

    pub fn as_str(&self) -> (s: &'static str)
        ensures
            s@ == self.name(),
    {
        match self {
            EditClass::Unchanged => "unchanged",
            EditClass::Shifted => "shifted",
            EditClass::Affected => "affected",
            EditClass::Deleted => "deleted",
        }
    }
}

impl AnchorSource {
    pub open spec fn name(self) -> Seq<char> {
        match self {
            AnchorSource::Adr => "adr"@,
            AnchorSource::SourceFile => "source_file"@,
            AnchorSource::Symbol => "symbol"@,
            AnchorSource::Commit => "commit"@,
            AnchorSource::Episode => "episode"@,
            AnchorSource::Pr => "pr"@,
        }
    }

    pub fn as_str(&self) -> (s: &'static str)
        ensures
            s@ == self.name(),
    {
        match self {
            AnchorSource::Adr => "adr",
            AnchorSource::SourceFile => "source_file",
            AnchorSource::Symbol => "symbol",
            AnchorSource::Commit => "commit",
            AnchorSource::Episode => "episode",
            AnchorSource::Pr => "pr",
        }
    }
}

// ---------------------------------------------------------------------------
// Verify mode
// ---------------------------------------------------------------------------

/// The mode a (trimmed, lowercased) mode word selects; anything unknown is
/// `cached`.
pub open spec fn mode_of_word(w: Seq<char>) -> VerifyMode {
    if w == "fresh"@ {
        VerifyMode::Fresh
    } else if w == "skip"@ || w == "none"@ || w == "off"@ {
        VerifyMode::Skip
    } else if w == "strict"@ {
        VerifyMode::Strict
    } else {
        VerifyMode::Cached
    }
}

/// The mode an optional request field selects.
pub open spec fn parse_mode_spec(s: Option<Seq<char>>) -> VerifyMode {
    match s {
        Some(v) => mode_of_word(str_lowercase(trim_spec(v))),
        None => VerifyMode::Cached,
    }
}

impl VerifyMode {
    /// Reads the `verify` request field: surrounding whitespace and case are
    /// ignored; `fresh`, `strict`, and `skip`/`none`/`off` select those modes,
    /// anything else (or no field) selects `cached`.
    pub fn parse(s: Option<&str>) -> (m: VerifyMode)
        ensures
            m == parse_mode_spec(
                match s {
                    Some(v) => Some(v@),
                    None => None,
                },
            ),
    {
        match s {
            None => VerifyMode::Cached,
            Some(v) => {
                let t = trim(v);
                let l = to_lowercase(t.as_str());
                VerifyMode::from_word(l.as_str())
            },
        }
    }

    /// The mode a mode word selects once it is trimmed and lowercased:
    /// `fresh`, `strict`, and `skip`/`none`/`off` select those modes, any
    /// other word `cached`.
    pub fn from_word(w: &str) -> (m: VerifyMode)
        ensures
            m == mode_of_word(w@),
    {
        if str_eq(w, "fresh") {
            VerifyMode::Fresh
        } else if str_eq(w, "skip") || str_eq(w, "none") || str_eq(w, "off") {
            VerifyMode::Skip
        } else if str_eq(w, "strict") {
            VerifyMode::Strict
        } else {
            VerifyMode::Cached
        }
    }

    /// Modes that ignore cached verifications and re-verify every anchor.
    pub open spec fn always_reverify_spec(self) -> bool {
        self == VerifyMode::Fresh || self == VerifyMode::Strict
    }

    /// Whether this mode re-verifies every anchor instead of reusing a cached
    /// verification.
    pub fn always_reverify(self) -> (b: bool)
        ensures
            b == self.always_reverify_spec(),
    {
        match self {
            VerifyMode::Fresh | VerifyMode::Strict => true,
            _ => false,
        }
    }
}

// ---------------------------------------------------------------------------
// Claim disposition
// ---------------------------------------------------------------------------

/// Every anchor verifies fresh.
pub open spec fn all_fresh(states: Seq<AnchorState>) -> bool {
    forall|i: int| 0 <= i < states.len() ==> #[trigger] states[i].verification.freshness == Freshness::Fresh
}

/// Every stale anchor was relocated.
pub open spec fn all_stale_relocated(states: Seq<AnchorState>) -> bool {
    forall|i: int|
        0 <= i < states.len() && #[trigger] states[i].verification.freshness == Freshness::Stale
            ==> states[i].verification.relocated_locator.is_some()
}

/// A claim with no anchors is unprovable; with all anchors fresh it is
/// unaffected; when every stale anchor was relocated it is affected; otherwise
/// unprovable.
pub open spec fn disposition_spec(states: Seq<AnchorState>) -> Disposition {
    if states.len() == 0 {
        Disposition::Unprovable
    } else if all_fresh(states) {
        Disposition::Unaffected
    } else if all_stale_relocated(states) {
        Disposition::Affected
    } else {
        Disposition::Unprovable
    }
}

/// Three-state disposition of a claim over its resolved anchors.
pub fn claim_disposition(states: &[AnchorState]) -> (d: Disposition)
    ensures
        d == disposition_spec(states@),
{
    if states.len() == 0 {
        return Disposition::Unprovable;
    }
    let mut fresh = true;
    let mut relocated = true;
    let mut i: usize = 0;
    while i < states.len()
        invariant
            i <= states.len(),
            fresh == all_fresh(states@.take(i as int)),
            relocated == all_stale_relocated(states@.take(i as int)),
        decreases states.len() - i,
    {
        let ghost t = states@.take(i as int);
        let ghost t1 = states@.take(i + 1);
        proof {
            assert(t1 == t.push(states@[i as int]));
            assert forall|k: int| 0 <= k < t.len() implies #[trigger] t1[k] == t[k] by {}
        }
        let s = &states[i];
        if s.verification.freshness != Freshness::Fresh {
            fresh = false;
            proof {
                assert(t1[i as int].verification.freshness != Freshness::Fresh);
            }
        }
        if s.verification.freshness == Freshness::Stale && s.verification.relocated_locator.is_none() {
            relocated = false;
            proof {
                assert(t1[i as int].verification.freshness == Freshness::Stale);
            }
        }
        i = i + 1;
    }
    proof {
        assert(states@.take(states.len() as int) == states@);
    }
    if fresh {
        Disposition::Unaffected
    } else if relocated {
        Disposition::Affected
    } else {
        Disposition::Unprovable
    }
}

// ---------------------------------------------------------------------------
// Manifest assembly
// ---------------------------------------------------------------------------

/// What a manifest reports of a claim.
#[derive(Clone, Debug)]
pub struct ClaimInfo {
    pub id: String,
    pub subject_type: String,
    pub subject_id: String,
    pub text: String,
    pub evidence_grade: String,
}

/// How many anchors there are, and how many claims fall under each
/// disposition.
#[derive(Clone, Copy, Debug)]
pub struct DispositionTally {
    pub anchors_total: usize,
    pub unaffected: usize,
    pub affected: usize,
    pub unprovable: usize,
}

/// The number of anchors over all claims.
pub open spec fn total_anchors(claims: Seq<Vec<AnchorState>>) -> nat
    decreases claims.len(),
{
    if claims.len() == 0 {
        0
    } else {
        total_anchors(claims.drop_last()) + claims.last()@.len()
    }
}

/// The number of claims whose disposition is `d`.
pub open spec fn count_disposition(claims: Seq<Vec<AnchorState>>, d: Disposition) -> nat
    decreases claims.len(),
{
    if claims.len() == 0 {
        0
    } else {
        count_disposition(claims.drop_last(), d) + if disposition_spec(claims.last()@) == d {
            1nat
        } else {
            0nat
        }
    }
}

proof fn lemma_count_disposition_le(claims: Seq<Vec<AnchorState>>, d: Disposition)
    ensures
        count_disposition(claims, d) <= claims.len(),
    decreases claims.len(),
{
    if claims.len() > 0 {
        lemma_count_disposition_le(claims.drop_last(), d);
    }
}

proof fn lemma_total_anchors_mono(claims: Seq<Vec<AnchorState>>, i: int)
    requires
        0 <= i <= claims.len(),
    ensures
        total_anchors(claims.take(i)) <= total_anchors(claims),
    decreases claims.len() - i,
{
    if i < claims.len() {
        lemma_total_anchors_mono(claims, i + 1);
        assert(claims.take(i + 1).drop_last() == claims.take(i));
    } else {
        assert(claims.take(i) == claims);
    }
}

/// Counts the anchors of all claims and the claims under each disposition.
pub fn tally_dispositions(claims: &Vec<Vec<AnchorState>>) -> (t: DispositionTally)
    requires
        total_anchors(claims@) <= usize::MAX,
    ensures
        t.anchors_total == total_anchors(claims@),
        t.unaffected == count_disposition(claims@, Disposition::Unaffected),
        t.affected == count_disposition(claims@, Disposition::Affected),
        t.unprovable == count_disposition(claims@, Disposition::Unprovable),
{
    let mut t = DispositionTally { anchors_total: 0, unaffected: 0, affected: 0, unprovable: 0 };
    let mut i: usize = 0;
    while i < claims.len()
        invariant
            i <= claims.len(),
            total_anchors(claims@) <= usize::MAX,
            t.anchors_total == total_anchors(claims@.take(i as int)),
            t.unaffected == count_disposition(claims@.take(i as int), Disposition::Unaffected),
            t.affected == count_disposition(claims@.take(i as int), Disposition::Affected),
            t.unprovable == count_disposition(claims@.take(i as int), Disposition::Unprovable),
        decreases claims.len() - i,
    {
        let ghost pre = claims@.take(i as int);
        let ghost post = claims@.take(i + 1);
        proof {
            assert(post.drop_last() == pre);
            assert(post.last() == claims@[i as int]);
            lemma_total_anchors_mono(claims@, i + 1);
            lemma_count_disposition_le(pre, Disposition::Unaffected);
            lemma_count_disposition_le(pre, Disposition::Affected);
            lemma_count_disposition_le(pre, Disposition::Unprovable);
        }
        t.anchors_total = t.anchors_total + claims[i].len();
        match claim_disposition(claims[i].as_slice()) {
            Disposition::Unaffected => t.unaffected = t.unaffected + 1,
            Disposition::Affected => t.affected = t.affected + 1,
            Disposition::Unprovable => t.unprovable = t.unprovable + 1,
        }
        i = i + 1;
    }
    proof {
        assert(claims@.take(claims.len() as int) == claims@);
    }
    t
}

/// Optional text, by its characters.
pub open spec fn opt_text(o: Option<String>) -> Option<Seq<char>> {
    match o {
        Some(s) => Some(s@),
        None => None,
    }
}

/// Two optional locators name the same place, or are both absent.
pub open spec fn same_opt_locator(a: Option<Locator>, b: Option<Locator>) -> bool {
    match (a, b) {
        (Some(x), Some(y)) => crate::tools::verify_evidence::same_locator(x, y),
        (None, None) => true,
        _ => false,
    }
}

/// `d` reports anchor state `s`.
pub open spec fn detail_of(d: StaleAnchorDetail, s: AnchorState) -> bool {
    &&& d.anchor_id@ == s.anchor.id@
    &&& d.identity.source_kind == s.anchor.identity.source_kind
    &&& d.identity.source_uri@ == s.anchor.identity.source_uri@
    &&& d.identity.subpath@ == s.anchor.identity.subpath@
    &&& d.edit_class@ == s.verification.edit_class.name()
    &&& d.freshness@ == s.verification.freshness.name()
    &&& same_opt_locator(d.relocated_locator, s.verification.relocated_locator)
    &&& opt_text(d.detail) == opt_text(s.verification.detail)
}

/// The stale anchor states among `states`, in order.
pub open spec fn stale_states(states: Seq<AnchorState>) -> Seq<AnchorState>
    decreases states.len(),
{
    if states.len() == 0 {
        Seq::empty()
    } else if states.last().verification.freshness == Freshness::Stale {
        stale_states(states.drop_last()).push(states.last())
    } else {
        stale_states(states.drop_last())
    }
}

fn copy_opt_string(o: &Option<String>) -> (r: Option<String>)
    ensures
        opt_text(r) == opt_text(*o),
{
    match o {
        Some(s) => Some(crate::text::copy_string(s)),
        None => None,
    }
}

fn copy_locator(l: &Locator) -> (r: Locator)
    ensures
        crate::tools::verify_evidence::same_locator(r, *l),
{
    match l {
        Locator::Section { name } => Locator::Section { name: crate::text::copy_string(name) },
        Locator::Lines { start, end } => Locator::Lines { start: *start, end: *end },
        Locator::Chars { start, end } => Locator::Chars { start: *start, end: *end },
        Locator::SymbolQn { qn } => Locator::SymbolQn { qn: crate::text::copy_string(qn) },
    }
}

fn detail_for(s: &AnchorState) -> (d: StaleAnchorDetail)
    ensures
        detail_of(d, *s),
{
    StaleAnchorDetail {
        anchor_id: crate::text::copy_string(&s.anchor.id),
        identity: AnchorIdentity {
            source_kind: s.anchor.identity.source_kind,
            source_uri: crate::text::copy_string(&s.anchor.identity.source_uri),
            subpath: crate::text::copy_string(&s.anchor.identity.subpath),
        },
        edit_class: String::from_str(s.verification.edit_class.as_str()),
        freshness: String::from_str(s.verification.freshness.as_str()),
        relocated_locator: match &s.verification.relocated_locator {
            Some(l) => Some(copy_locator(l)),
            None => None,
        },
        detail: copy_opt_string(&s.verification.detail),
    }
}

/// `c` reports `claim`: its identity and text, the decision and ADR it
/// belongs to, the disposition's name, and one detail per stale anchor of
/// `states`, in order.
pub open spec fn stale_claim_for(
    c: StaleClaim,
    claim: ClaimInfo,
    states: Seq<AnchorState>,
    disposition: Disposition,
    decision_id: Option<Seq<char>>,
    adr_id: Option<Seq<char>>,
) -> bool {
    &&& c.claim_id@ == claim.id@
    &&& c.subject_type@ == claim.subject_type@
    &&& c.subject_id@ == claim.subject_id@
    &&& c.text@ == claim.text@
    &&& c.evidence_grade@ == claim.evidence_grade@
    &&& opt_text(c.decision_id) == decision_id
    &&& opt_text(c.adr_id) == adr_id
    &&& c.disposition@ == disposition.name()
    &&& c.anchors@.len() == stale_states(states).len()
    &&& forall|i: int| 0 <= i < c.anchors@.len() ==> #[trigger] detail_of(c.anchors@[i], stale_states(states)[i])
}

/// The report of a claim whose disposition is not `unaffected`: its
/// identity and text, the decision and ADR it belongs to, the disposition's
/// name, and one detail per stale anchor, in order.
pub fn stale_claim_of(
    claim: &ClaimInfo,
    states: &Vec<AnchorState>,
    disposition: Disposition,
    decision_id: Option<String>,
    adr_id: Option<String>,
) -> (c: StaleClaim)
    ensures
        stale_claim_for(c, *claim, states@, disposition, opt_text(decision_id), opt_text(adr_id)),
        c.decision_id == decision_id,
        c.adr_id == adr_id,
{
    let mut anchors: Vec<StaleAnchorDetail> = Vec::new();
    let mut i: usize = 0;
    while i < states.len()
        invariant
            i <= states.len(),
            anchors@.len() == stale_states(states@.take(i as int)).len(),
            forall|k: int| 0 <= k < anchors@.len() ==> #[trigger] detail_of(anchors@[k], stale_states(states@.take(i as int))[k]),
        decreases states.len() - i,
    {
        proof {
            assert(states@.take(i + 1).drop_last() == states@.take(i as int));
            assert(states@.take(i + 1).last() == states@[i as int]);
        }
        if states[i].verification.freshness == Freshness::Stale {
            let d = detail_for(&states[i]);
            anchors.push(d);
        }
        i = i + 1;
    }
    proof {
        assert(states@.take(states.len() as int) == states@);
    }
    StaleClaim {
        claim_id: crate::text::copy_string(&claim.id),
        subject_type: crate::text::copy_string(&claim.subject_type),
        subject_id: crate::text::copy_string(&claim.subject_id),
        decision_id,
        adr_id,
        text: crate::text::copy_string(&claim.text),
        evidence_grade: crate::text::copy_string(&claim.evidence_grade),
        disposition: String::from_str(disposition.as_str()),
        anchors,
    }
}

/// A claim as a manifest is assembled from it: the claim, its resolved
/// anchors, the decision and ADR it belongs to, and the sources it read that
/// none of its anchors covers.
pub type ClaimEvidence = (ClaimInfo, Vec<AnchorState>, Option<String>, Option<String>, Vec<AnchorIdentity>);

/// Two identities name the same source.
pub open spec fn same_identity(a: AnchorIdentity, b: AnchorIdentity) -> bool {
    a.source_kind == b.source_kind && a.source_uri@ == b.source_uri@ && a.subpath@ == b.subpath@
}

/// The positions, ascending, of the claims with uncovered sources.
pub open spec fn incomplete_positions(claims: Seq<ClaimEvidence>) -> Seq<int>
    decreases claims.len(),
{
    if claims.len() == 0 {
        Seq::empty()
    } else if claims.last().4@.len() > 0 {
        incomplete_positions(claims.drop_last()).push(claims.len() - 1)
    } else {
        incomplete_positions(claims.drop_last())
    }
}

proof fn lemma_incomplete_positions_below(claims: Seq<ClaimEvidence>)
    ensures
        forall|k: int|
            0 <= k < incomplete_positions(claims).len() ==> 0 <= #[trigger] incomplete_positions(claims)[k]
                < claims.len(),
    decreases claims.len(),
{
    if claims.len() > 0 {
        lemma_incomplete_positions_below(claims.drop_last());
        let r = incomplete_positions(claims.drop_last());
        if claims.last().4@.len() > 0 {
            assert forall|k: int| 0 <= k < r.push(claims.len() - 1).len() implies 0 <= #[trigger] r.push(
                claims.len() - 1,
            )[k] < claims.len() by {
                if k < r.len() {
                    assert(r.push(claims.len() - 1)[k] == r[k]);
                }
            }
        }
    }
}

/// `ic` reports the uncovered sources of claim `c`.
pub open spec fn incomplete_for(ic: IncompleteClaim, c: ClaimEvidence) -> bool {
    &&& ic.claim_id@ == c.0.id@
    &&& ic.text@ == c.0.text@
    &&& ic.uncovered@.len() == c.4@.len()
    &&& forall|j: int| 0 <= j < ic.uncovered@.len() ==> #[trigger] same_identity(ic.uncovered@[j], c.4@[j])
}

fn copy_identities(ids: &Vec<AnchorIdentity>) -> (r: Vec<AnchorIdentity>)
    ensures
        r@.len() == ids@.len(),
        forall|j: int| 0 <= j < r@.len() ==> #[trigger] same_identity(r@[j], ids@[j]),
{
    let mut r: Vec<AnchorIdentity> = Vec::new();
    let mut i: usize = 0;
    while i < ids.len()
        invariant
            i <= ids@.len(),
            r@.len() == i,
            forall|j: int| 0 <= j < i ==> #[trigger] same_identity(r@[j], ids@[j]),
        decreases ids.len() - i,
    {
        r.push(AnchorIdentity {
            source_kind: ids[i].source_kind,
            source_uri: crate::text::copy_string(&ids[i].source_uri),
            subpath: crate::text::copy_string(&ids[i].subpath),
        });
        i = i + 1;
    }
    r
}

/// The resolved anchors of each claim.
pub open spec fn evidence_states(claims: Seq<ClaimEvidence>) -> Seq<Vec<AnchorState>> {
    claims.map_values(|c: ClaimEvidence| c.1)
}

/// The positions, ascending, of the claims whose disposition is not
/// `unaffected`.
pub open spec fn stale_positions(claims: Seq<ClaimEvidence>) -> Seq<int>
    decreases claims.len(),
{
    if claims.len() == 0 {
        Seq::empty()
    } else if disposition_spec(claims.last().1@) != Disposition::Unaffected {
        stale_positions(claims.drop_last()).push(claims.len() - 1)
    } else {
        stale_positions(claims.drop_last())
    }
}

proof fn lemma_stale_positions_below(claims: Seq<ClaimEvidence>)
    ensures
        forall|k: int| 0 <= k < stale_positions(claims).len() ==> 0 <= #[trigger] stale_positions(claims)[k] < claims.len(),
    decreases claims.len(),
{
    if claims.len() > 0 {
        lemma_stale_positions_below(claims.drop_last());
        let r = stale_positions(claims.drop_last());
        if disposition_spec(claims.last().1@) != Disposition::Unaffected {
            assert forall|k: int| 0 <= k < r.push(claims.len() - 1).len() implies 0 <= #[trigger] r.push(claims.len() - 1)[k] < claims.len() by {
                if k < r.len() {
                    assert(r.push(claims.len() - 1)[k] == r[k]);
                }
            }
        }
    }
}

/// The freshness manifest of a view, from the time of the
/// evaluation, the resolved `HEAD`, every claim with its resolved anchors and
/// its decision and ADR and its uncovered sources, the lane statuses and the
/// warnings: it counts the anchors and the claims under each disposition, and
/// reports, in order, every claim that is not `unaffected` and every claim
/// with uncovered sources.
pub fn assemble_manifest(
    now: String,
    head: &HeadRef,
    claims: &Vec<ClaimEvidence>,
    lanes: Vec<LaneStatus>,
    warnings: Vec<String>,
) -> (m: FreshnessManifest)
    requires
        total_anchors(evidence_states(claims@)) <= usize::MAX,
    ensures
        m.evaluated_at == now,
        m.repo_ref@ == head.repo_ref@,
        m.repo_commit@ == head.repo_commit@,
        m.anchors_total == total_anchors(evidence_states(claims@)),
        m.unaffected == count_disposition(evidence_states(claims@), Disposition::Unaffected),
        m.affected == count_disposition(evidence_states(claims@), Disposition::Affected),
        m.unprovable == count_disposition(evidence_states(claims@), Disposition::Unprovable),
        m.stale_claims@.len() == stale_positions(claims@).len(),
        forall|k: int|
            0 <= k < m.stale_claims@.len() ==> {
                let c = claims@[stale_positions(claims@)[k]];
                stale_claim_for(
                    #[trigger] m.stale_claims@[k],
                    c.0,
                    c.1@,
                    disposition_spec(c.1@),
                    opt_text(c.2),
                    opt_text(c.3),
                )
            },
        m.incomplete_claims@.len() == incomplete_positions(claims@).len(),
        forall|k: int|
            0 <= k < m.incomplete_claims@.len() ==> #[trigger] incomplete_for(
                m.incomplete_claims@[k],
                claims@[incomplete_positions(claims@)[k]],
            ),
        m.lanes == lanes,
        m.warnings == warnings,
{
    let ghost st = evidence_states(claims@);
    let mut incomplete: Vec<IncompleteClaim> = Vec::new();
    let mut anchors_total: usize = 0;
    let mut unaffected: usize = 0;
    let mut affected: usize = 0;
    let mut unprovable: usize = 0;
    let mut stale: Vec<StaleClaim> = Vec::new();
    let mut i: usize = 0;
    while i < claims.len()
        invariant
            i <= claims.len(),
            st == evidence_states(claims@),
            total_anchors(st) <= usize::MAX,
            anchors_total == total_anchors(st.take(i as int)),
            unaffected == count_disposition(st.take(i as int), Disposition::Unaffected),
            affected == count_disposition(st.take(i as int), Disposition::Affected),
            unprovable == count_disposition(st.take(i as int), Disposition::Unprovable),
            stale@.len() == stale_positions(claims@.take(i as int)).len(),
            forall|k: int|
                0 <= k < stale@.len() ==> {
                    let c = claims@[stale_positions(claims@.take(i as int))[k]];
                    stale_claim_for(
                        #[trigger] stale@[k],
                        c.0,
                        c.1@,
                        disposition_spec(c.1@),
                        opt_text(c.2),
                        opt_text(c.3),
                    )
                },
            incomplete@.len() == incomplete_positions(claims@.take(i as int)).len(),
            forall|k: int|
                0 <= k < incomplete@.len() ==> #[trigger] incomplete_for(
                    incomplete@[k],
                    claims@[incomplete_positions(claims@.take(i as int))[k]],
                ),
        decreases claims.len() - i,
    {
        let ghost pre = st.take(i as int);
        let ghost post = st.take(i + 1);
        let ghost cpre = claims@.take(i as int);
        let ghost cpost = claims@.take(i + 1);
        proof {
            assert(post.drop_last() == pre);
            assert(post.last() == claims@[i as int].1);
            assert(cpost.drop_last() == cpre);
            assert(cpost.last() == claims@[i as int]);
            lemma_total_anchors_mono(st, i + 1);
            lemma_count_disposition_le(pre, Disposition::Unaffected);
            lemma_count_disposition_le(pre, Disposition::Affected);
            lemma_count_disposition_le(pre, Disposition::Unprovable);
            lemma_stale_positions_below(cpre);
            lemma_incomplete_positions_below(cpre);
        }
        if claims[i].4.len() > 0 {
            let ic = IncompleteClaim {
                claim_id: crate::text::copy_string(&claims[i].0.id),
                text: crate::text::copy_string(&claims[i].0.text),
                uncovered: copy_identities(&claims[i].4),
            };
            let ghost q0 = incomplete@;
            incomplete.push(ic);
            proof {
                assert forall|k: int| 0 <= k < incomplete@.len() implies #[trigger] incomplete_for(
                    incomplete@[k],
                    claims@[incomplete_positions(cpost)[k]],
                ) by {
                    if k < q0.len() {
                        assert(incomplete@[k] == q0[k]);
                        assert(incomplete_positions(cpost)[k] == incomplete_positions(cpre)[k]);
                    } else {
                        assert(incomplete_positions(cpost)[k] == i as int);
                    }
                }
            }
        } else {
            proof {
                assert(incomplete_positions(cpost) == incomplete_positions(cpre));
            }
        }
        let states = &claims[i].1;
        anchors_total = anchors_total + states.len();
        let d = claim_disposition(states.as_slice());
        match d {
            Disposition::Unaffected => unaffected = unaffected + 1,
            Disposition::Affected => affected = affected + 1,
            Disposition::Unprovable => unprovable = unprovable + 1,
        }
        if d != Disposition::Unaffected {
            let c = stale_claim_of(
                &claims[i].0,
                states,
                d,
                copy_opt_string(&claims[i].2),
                copy_opt_string(&claims[i].3),
            );
            let ghost s0 = stale@;
            stale.push(c);
            proof {
                assert forall|k: int| 0 <= k < stale@.len() implies {
                    let cc = claims@[stale_positions(cpost)[k]];
                    stale_claim_for(#[trigger] stale@[k], cc.0, cc.1@, disposition_spec(cc.1@), opt_text(cc.2), opt_text(cc.3))
                } by {
                    if k < s0.len() {
                        assert(stale@[k] == s0[k]);
                        assert(stale_positions(cpost)[k] == stale_positions(cpre)[k]);
                    } else {
                        assert(stale_positions(cpost)[k] == i as int);
                    }
                }
            }
        } else {
            proof {
                assert(stale_positions(cpost) == stale_positions(cpre));
            }
        }
        i = i + 1;
    }
    proof {
        assert(st.take(claims.len() as int) == st);
        assert(claims@.take(claims.len() as int) == claims@);
    }
    FreshnessManifest {
        evaluated_at: now,
        repo_ref: crate::text::copy_string(&head.repo_ref),
        repo_commit: crate::text::copy_string(&head.repo_commit),
        anchors_total,
        unaffected,
        affected,
        unprovable,
        stale_claims: stale,
        incomplete_claims: incomplete,
        lanes,
        warnings,
    }
}

// ---------------------------------------------------------------------------
// Rebuild obligation
// ---------------------------------------------------------------------------

/// All drifted anchors of the stale claims, claim by claim.
pub open spec fn all_anchor_details(claims: Seq<StaleClaim>) -> Seq<StaleAnchorDetail>
    decreases claims.len(),
{
    if claims.len() == 0 {
        Seq::empty()
    } else {
        all_anchor_details(claims.drop_last()) + claims.last().anchors@
    }
}

/// Some anchor among `ds` cites an ADR section.
pub open spec fn details_cite_adr(ds: Seq<StaleAnchorDetail>) -> bool {
    exists|k: int| 0 <= k < ds.len() && #[trigger] ds[k].identity.source_kind == AnchorSource::Adr
}

/// Some anchor among `ds` cites a source file or a symbol.
pub open spec fn details_cite_code(ds: Seq<StaleAnchorDetail>) -> bool {
    exists|k: int|
        0 <= k < ds.len() && (#[trigger] ds[k].identity.source_kind == AnchorSource::SourceFile
            || ds[k].identity.source_kind == AnchorSource::Symbol)
}

/// Some anchor among `ds` cites a commit.
pub open spec fn details_cite_commit(ds: Seq<StaleAnchorDetail>) -> bool {
    exists|k: int| 0 <= k < ds.len() && #[trigger] ds[k].identity.source_kind == AnchorSource::Commit
}

/// The drifted anchors cite an ADR section.
pub open spec fn cites_adr(claims: Seq<StaleClaim>) -> bool {
    details_cite_adr(all_anchor_details(claims))
}

/// The drifted anchors cite a source file or symbol.
pub open spec fn cites_code(claims: Seq<StaleClaim>) -> bool {
    details_cite_code(all_anchor_details(claims))
}

/// The drifted anchors cite a commit.
pub open spec fn cites_commit(claims: Seq<StaleClaim>) -> bool {
    details_cite_commit(all_anchor_details(claims))
}

/// Number of stale claims whose disposition is `unprovable`.
pub open spec fn count_unprovable(claims: Seq<StaleClaim>) -> nat
    decreases claims.len(),
{
    if claims.len() == 0 {
        0
    } else if claims.last().disposition@ == "unprovable"@ {
        count_unprovable(claims.drop_last()) + 1
    } else {
        count_unprovable(claims.drop_last())
    }
}

/// Command that re-syncs the ADR lane.
pub open spec fn adr_command(repo: Seq<char>) -> Seq<char> {
    "sync_adrs_from_git { \"repo_path\": \""@ + repo + "\", \"adr_glob\": \"docs/adr/*.md\" }"@
}

/// Command that re-indexes the code changed since `commit`.
pub open spec fn incremental_command(repo: Seq<char>, commit: Seq<char>) -> Seq<char> {
    "sync_incremental { \"repo_path\": \""@ + repo + "\", \"since\": \""@ + commit + "\" }"@
}

/// Command that re-syncs the commit lane.
pub open spec fn commits_command(repo: Seq<char>) -> Seq<char> {
    "sync_commits_from_git { \"repo_path\": \""@ + repo + "\" }"@
}

/// The rebuild commands a set of stale claims calls for, in the order ADR,
/// code, commits.
pub open spec fn rebuild_commands(claims: Seq<StaleClaim>, repo: Seq<char>, commit: Seq<char>) -> Seq<
    Seq<char>,
> {
    (if cites_adr(claims) { seq![adr_command(repo)] } else { Seq::empty() }) + (if cites_code(
        claims,
    ) {
        seq![incremental_command(repo, commit)]
    } else {
        Seq::empty()
    }) + (if cites_commit(claims) { seq![commits_command(repo)] } else { Seq::empty() })
}

/// The reason line of an obligation.
pub open spec fn obligation_reason(n_unprovable: nat, n_affected: nat) -> Seq<char> {
    decimal(n_unprovable) + " claim(s) on the answer path are unprovable, "@ + decimal(n_affected)
        + " affected"@
}

proof fn lemma_details_step(claims: Seq<StaleClaim>, i: int)
    requires
        0 <= i < claims.len(),
    ensures
        all_anchor_details(claims.take(i + 1)) == all_anchor_details(claims.take(i))
            + claims[i].anchors@,
        count_unprovable(claims.take(i + 1)) == count_unprovable(claims.take(i)) + (if claims[i].disposition@
            == "unprovable"@ { 1nat } else { 0nat }),
{
    assert(claims.take(i + 1).drop_last() == claims.take(i));
}

proof fn lemma_count_unprovable_le(claims: Seq<StaleClaim>)
    ensures
        count_unprovable(claims) <= claims.len(),
    decreases claims.len(),
{
    if claims.len() > 0 {
        lemma_count_unprovable_le(claims.drop_last());
    }
}

/// Ids of the drifted anchors, the kinds of source they cite, and how many
/// stale claims are unprovable.
#[verifier::spinoff_prover]
fn scan_stale_claims(claims: &Vec<StaleClaim>) -> (r: (Vec<String>, bool, bool, bool, usize))
    ensures
        r.0@ == all_anchor_details(claims@).map_values(|a: StaleAnchorDetail| a.anchor_id),
        r.1 == cites_adr(claims@),
        r.2 == cites_code(claims@),
        r.3 == cites_commit(claims@),
        r.4 == count_unprovable(claims@),
{
    let mut ids: Vec<String> = Vec::new();
    let mut adr = false;
    let mut code = false;
    let mut commit = false;
    let mut n_unprovable: usize = 0;
    let mut i: usize = 0;
    while i < claims.len()
        invariant
            i <= claims.len(),
            ids@ == all_anchor_details(claims@.take(i as int)).map_values(
                |a: StaleAnchorDetail| a.anchor_id,
            ),
            adr == details_cite_adr(all_anchor_details(claims@.take(i as int))),
            code == details_cite_code(all_anchor_details(claims@.take(i as int))),
            commit == details_cite_commit(all_anchor_details(claims@.take(i as int))),
            n_unprovable == count_unprovable(claims@.take(i as int)),
            n_unprovable <= i,
        decreases claims.len() - i,
    {
        let c = &claims[i];
        let ghost before = all_anchor_details(claims@.take(i as int));
        proof {
            lemma_details_step(claims@, i as int);
            assert(before + c.anchors@.take(0) == before);
        }
        let mut j: usize = 0;
        while j < c.anchors.len()
            invariant
                i < claims.len(),
                *c == claims@[i as int],
                j <= c.anchors.len(),
                before == all_anchor_details(claims@.take(i as int)),
                ids@ == (before + c.anchors@.take(j as int)).map_values(
                    |a: StaleAnchorDetail| a.anchor_id,
                ),
                adr == details_cite_adr(before + c.anchors@.take(j as int)),
                code == details_cite_code(before + c.anchors@.take(j as int)),
                commit == details_cite_commit(before + c.anchors@.take(j as int)),
            decreases c.anchors.len() - j,
        {
            let a = &c.anchors[j];
            let ghost acc = before + c.anchors@.take(j as int);
            let ghost acc1 = before + c.anchors@.take(j + 1);
            proof {
                assert(acc1 == acc.push(c.anchors@[j as int]));
                assert forall|k: int| 0 <= k < acc.len() implies #[trigger] acc1[k] == acc[k] by {}
            }
            ids.push(a.anchor_id.clone());
            let kind = a.identity.source_kind;
            if kind == AnchorSource::Adr {
                adr = true;
            }
            if kind == AnchorSource::SourceFile || kind == AnchorSource::Symbol {
                code = true;
            }
            if kind == AnchorSource::Commit {
                commit = true;
            }
            proof {
                assert(ids@ == acc1.map_values(|a: StaleAnchorDetail| a.anchor_id));
                let last = acc.len() as int;
                assert(acc1[last] == c.anchors@[j as int]);
                if adr != details_cite_adr(acc1) {
                    if adr {
                        if details_cite_adr(acc) {
                            let k = choose|k: int| 0 <= k < acc.len() && #[trigger] acc[k].identity.source_kind == AnchorSource::Adr;
                            assert(acc1[k] == acc[k]);
                        }
                    } else {
                        let k = choose|k: int| 0 <= k < acc1.len() && #[trigger] acc1[k].identity.source_kind == AnchorSource::Adr;
                        if k < last {
                            assert(acc1[k] == acc[k]);
                        }
                    }
                }
                if code != details_cite_code(acc1) {
                    if code {
                        if details_cite_code(acc) {
                            let k = choose|k: int| 0 <= k < acc.len() && (#[trigger] acc[k].identity.source_kind == AnchorSource::SourceFile || acc[k].identity.source_kind == AnchorSource::Symbol);
                            assert(acc1[k] == acc[k]);
                        }
                    } else {
                        let k = choose|k: int| 0 <= k < acc1.len() && (#[trigger] acc1[k].identity.source_kind == AnchorSource::SourceFile || acc1[k].identity.source_kind == AnchorSource::Symbol);
                        if k < last {
                            assert(acc1[k] == acc[k]);
                        }
                    }
                }
                if commit != details_cite_commit(acc1) {
                    if commit {
                        if details_cite_commit(acc) {
                            let k = choose|k: int| 0 <= k < acc.len() && #[trigger] acc[k].identity.source_kind == AnchorSource::Commit;
                            assert(acc1[k] == acc[k]);
                        }
                    } else {
                        let k = choose|k: int| 0 <= k < acc1.len() && #[trigger] acc1[k].identity.source_kind == AnchorSource::Commit;
                        if k < last {
                            assert(acc1[k] == acc[k]);
                        }
                    }
                }
            }
            j = j + 1;
        }
        proof {
            assert(c.anchors@.take(c.anchors.len() as int) == c.anchors@);
        }
        if str_eq(c.disposition.as_str(), "unprovable") {
            n_unprovable = n_unprovable + 1;
        }
        i = i + 1;
    }
    proof {
        assert(claims@.take(claims.len() as int) == claims@);
    }
    (ids, adr, code, commit, n_unprovable)
}

/// `o` is the rebuild obligation of `manifest`: the re-sync commands the
/// drifted anchors call for, the drifted anchor ids, and a reason that counts
/// the unprovable and the affected stale claims.
pub open spec fn obligation_for(o: RebuildObligation, manifest: FreshnessManifest, repo_path: Seq<char>) -> bool {
    let claims = manifest.stale_claims@;
    let n_unprovable = count_unprovable(claims);
    &&& o.commands@.map_values(|c: String| c@) == rebuild_commands(claims, repo_path, manifest.repo_commit@)
    &&& o.drifted_anchors@ == all_anchor_details(claims).map_values(|a: StaleAnchorDetail| a.anchor_id)
    &&& o.reason@ == obligation_reason(n_unprovable, (claims.len() - n_unprovable) as nat)
}

/// Strict-mode rebuild obligation for a manifest: nothing when no claim on the
/// view is stale; otherwise the re-sync commands the drifted anchors call for,
/// the drifted anchor ids, and how many stale claims are unprovable versus
/// affected.
pub fn rebuild_obligation(manifest: &FreshnessManifest, repo_path: &str) -> (r: Option<RebuildObligation>)
    ensures
        manifest.stale_claims@.len() == 0 <==> r.is_none(),
        r matches Some(o) ==> obligation_for(o, *manifest, repo_path@),
{
    if manifest.stale_claims.len() == 0 {
        return None;
    }
    let (drifted, adr, code, commit, n_unprovable) = scan_stale_claims(&manifest.stale_claims);
    let ghost claims = manifest.stale_claims@;
    proof {
        lemma_count_unprovable_le(claims);
    }
    let mut commands: Vec<String> = Vec::new();
    if adr {
        let mut c = String::new();
        push_str(&mut c, "sync_adrs_from_git { \"repo_path\": \"");
        push_str(&mut c, repo_path);
        push_str(&mut c, "\", \"adr_glob\": \"docs/adr/*.md\" }");
        commands.push(c);
    }
    let ghost after_adr = commands@.map_values(|c: String| c@);
    if code {
        let mut c = String::new();
        push_str(&mut c, "sync_incremental { \"repo_path\": \"");
        push_str(&mut c, repo_path);
        push_str(&mut c, "\", \"since\": \"");
        push_str(&mut c, manifest.repo_commit.as_str());
        push_str(&mut c, "\" }");
        commands.push(c);
    }
    let ghost after_code = commands@.map_values(|c: String| c@);
    if commit {
        let mut c = String::new();
        push_str(&mut c, "sync_commits_from_git { \"repo_path\": \"");
        push_str(&mut c, repo_path);
        push_str(&mut c, "\" }");
        commands.push(c);
    }
    proof {
        let a = if adr { seq![adr_command(repo_path@)] } else { Seq::<Seq<char>>::empty() };
        let b = if code { seq![incremental_command(repo_path@, manifest.repo_commit@)] } else { Seq::<Seq<char>>::empty() };
        let d = if commit { seq![commits_command(repo_path@)] } else { Seq::<Seq<char>>::empty() };
        assert(after_adr =~= a);
        assert(after_code =~= a + b);
        assert(commands@.map_values(|c: String| c@) =~= a + b + d);
    }
    let n_affected = manifest.stale_claims.len() - n_unprovable;
    let mut reason = String::new();
    push_decimal(&mut reason, n_unprovable as u64);
    push_str(&mut reason, " claim(s) on the answer path are unprovable, ");
    push_decimal(&mut reason, n_affected as u64);
    push_str(&mut reason, " affected");
    proof {
        assert(reason@ =~= obligation_reason(n_unprovable as nat, n_affected as nat));
    }
    Some(RebuildObligation { reason, drifted_anchors: drifted, commands })
}

/// The answer text that replaces a refused answer.
pub open spec fn refusal_text(reason: Seq<char>) -> Seq<char> {
    "refused: "@ + reason
}

/// What strict mode does with the manifest attached to an answer: in strict mode,
/// when a claim on the view is stale, the answer becomes `refused: ` and the
/// reason of the rebuild obligation, which is handed back with it; in every
/// other case the answer stands.
pub fn strict_refusal(manifest: &FreshnessManifest, repo_path: &str, mode: VerifyMode) -> (r: Option<
    (String, RebuildObligation),
>)
    ensures
        r is Some <==> mode == VerifyMode::Strict && manifest.stale_claims@.len() > 0,
        r matches Some((answer, o)) ==> obligation_for(o, *manifest, repo_path@) && answer@ == refusal_text(
            o.reason@,
        ),
{
    if mode != VerifyMode::Strict {
        return None;
    }
    match rebuild_obligation(manifest, repo_path) {
        Some(o) => {
            let mut answer = String::new();
            push_str(&mut answer, "refused: ");
            push_str(&mut answer, o.reason.as_str());
            Some((answer, o))
        },
        None => None,
    }
}

/// What attaching a manifest to an answer comes to before any claim is read.
#[derive(Debug)]
pub enum AttachPlan {
    /// Verification is skipped; the answer carries this warning.
    Skipped(String),
    /// The answer cites no decision with a UUID id: nothing to verify.
    NothingCited,
    /// The claims behind the decisions with these ids are verified.
    Verify(Vec<u128>),
}

/// The warning an answer carries when verification is skipped.
pub open spec fn skip_warning() -> Seq<char> {
    "freshness verification skipped (verify: skip)"@
}

/// The first step of attaching a manifest to an answer: skip with a warning in `skip` mode;
/// otherwise verify the claims behind the cited decisions whose ids are
/// UUIDs, or nothing when there are none.
pub fn attach_plan(mode: VerifyMode, decision_ids: &Vec<String>) -> (p: AttachPlan)
    ensures
        mode == VerifyMode::Skip <==> p is Skipped,
        p matches AttachPlan::Skipped(w) ==> w@ == skip_warning(),
        mode != VerifyMode::Skip ==> (uuids_of(views(decision_ids@)).len() == 0 <==> p is NothingCited),
        p matches AttachPlan::Verify(ids) ==> ids@ == uuids_of(views(decision_ids@)),
{
    if mode == VerifyMode::Skip {
        let mut w = String::new();
        push_str(&mut w, "freshness verification skipped (verify: skip)");
        return AttachPlan::Skipped(w);
    }
    let ids = decision_uuids(decision_ids);
    if ids.len() == 0 {
        AttachPlan::NothingCited
    } else {
        AttachPlan::Verify(ids)
    }
}

/// The positions, ascending, at which `id` occurs in `ids`.
pub open spec fn positions_of(ids: Seq<Seq<char>>, id: Seq<char>) -> Seq<int>
    decreases ids.len(),
{
    if ids.len() == 0 {
        Seq::empty()
    } else if ids.last() == id {
        positions_of(ids.drop_last(), id).push(ids.len() - 1)
    } else {
        positions_of(ids.drop_last(), id)
    }
}

/// The anchors each claim is resolved with when claims are resolved: by
/// position, the anchors whose claim id is the claim's, in order; a claim
/// listed twice gets its anchors the first time only.
pub fn anchors_by_claim(claim_ids: &Vec<String>, anchor_claims: &Vec<String>) -> (r: Vec<Vec<usize>>)
    ensures
        r@.len() == claim_ids@.len(),
        forall|i: int|
            0 <= i < claim_ids@.len() ==> (#[trigger] r@[i])@.map_values(|p: usize| p as int) == (if exists|k: int|
                0 <= k < i && claim_ids@[k]@ == claim_ids@[i]@ {
                Seq::empty()
            } else {
                positions_of(views(anchor_claims@), claim_ids@[i]@)
            }),
{
    let ghost av = views(anchor_claims@);
    let mut out: Vec<Vec<usize>> = Vec::new();
    let mut i: usize = 0;
    while i < claim_ids.len()
        invariant
            i <= claim_ids.len(),
            av == views(anchor_claims@),
            out@.len() == i,
            forall|t: int|
                0 <= t < i ==> (#[trigger] out@[t])@.map_values(|p: usize| p as int) == (if exists|k: int|
                    0 <= k < t && claim_ids@[k]@ == claim_ids@[t]@ {
                    Seq::empty()
                } else {
                    positions_of(av, claim_ids@[t]@)
                }),
        decreases claim_ids.len() - i,
    {
        let id = claim_ids[i].as_str();
        let mut seen = false;
        let mut k: usize = 0;
        while k < i
            invariant
                k <= i < claim_ids@.len(),
                id@ == claim_ids@[i as int]@,
                seen <==> exists|q: int| 0 <= q < k && #[trigger] claim_ids@[q]@ == claim_ids@[i as int]@,
            decreases i - k,
        {
            let ghost was = seen;
            let hit = str_eq(claim_ids[k].as_str(), id);
            if hit {
                seen = true;
            }
            proof {
                if exists|q: int| 0 <= q < k + 1 && #[trigger] claim_ids@[q]@ == claim_ids@[i as int]@ {
                    let q = choose|q: int| 0 <= q < k + 1 && #[trigger] claim_ids@[q]@ == claim_ids@[i as int]@;
                    if q == k {
                        assert(hit);
                    } else {
                        assert(was);
                    }
                }
                if hit {
                    assert(claim_ids@[k as int]@ == claim_ids@[i as int]@);
                }
                if was {
                    let q = choose|q: int| 0 <= q < k && #[trigger] claim_ids@[q]@ == claim_ids@[i as int]@;
                    assert(claim_ids@[q]@ == claim_ids@[i as int]@);
                }
            }
            k = k + 1;
        }
        let mut mine: Vec<usize> = Vec::new();
        if !seen {
            let mut j: usize = 0;
            proof {
                assert(mine@.map_values(|p: usize| p as int) =~= Seq::<int>::empty());
                assert(av.take(0) =~= Seq::<Seq<char>>::empty());
            }
            while j < anchor_claims.len()
                invariant
                    j <= anchor_claims.len(),
                    av == views(anchor_claims@),
                    id@ == claim_ids@[i as int]@,
                    mine@.map_values(|p: usize| p as int) == positions_of(av.take(j as int), id@),
                decreases anchor_claims.len() - j,
            {
                proof {
                    assert(av.take(j + 1).drop_last() == av.take(j as int));
                    assert(av.take(j + 1).last() == av[j as int]);
                    assert(av[j as int] == anchor_claims@[j as int]@);
                }
                if str_eq(anchor_claims[j].as_str(), id) {
                    let ghost before = mine@;
                    mine.push(j);
                    proof {
                        assert(mine@.map_values(|p: usize| p as int) =~= before.map_values(|p: usize| p as int).push(
                            j as int,
                        ));
                    }
                }
                j = j + 1;
            }
            proof {
                assert(av.take(anchor_claims.len() as int) == av);
            }
        } else {
            proof {
                assert(mine@.map_values(|p: usize| p as int) =~= Seq::<int>::empty());
            }
        }
        let ghost o0 = out@;
        out.push(mine);
        proof {
            assert forall|t: int| 0 <= t < i + 1 implies (#[trigger] out@[t])@.map_values(|p: usize| p as int) == (if exists|q: int|
                0 <= q < t && claim_ids@[q]@ == claim_ids@[t]@ {
                Seq::empty()
            } else {
                positions_of(av, claim_ids@[t]@)
            }) by {
                if t < i {
                    assert(out@[t] == o0[t]);
                }
            }
        }
        i = i + 1;
    }
    out
}

/// A new verification repeats the latest stored one for the anchor when both
/// agree on freshness and edit class; it is then not stored again.
pub fn repeats_latest(latest: &Option<AnchorVerification>, v: &AnchorVerification) -> (b: bool)
    ensures
        b == (latest matches Some(p) && p.freshness == v.freshness && p.edit_class == v.edit_class),
{
    match latest {
        Some(p) => p.freshness == v.freshness && p.edit_class == v.edit_class,
        None => false,
    }
}

// ---------------------------------------------------------------------------
// Lanes
// ---------------------------------------------------------------------------

/// Capabilities a lane enables while its status is `ok`.
pub open spec fn lane_caps(lane: Seq<char>) -> Seq<Seq<char>> {
    if lane == "adr"@ {
        seq!["governance_lookup"@, "consistency_check"@]
    } else if lane == "symbol"@ {
        seq!["symbol_lookup"@, "call_path"@, "anchor_verification"@]
    } else if lane == "commit"@ {
        seq!["commit_evidence"@, "stale_decision_activity"@]
    } else if lane == "embedding"@ {
        seq!["semantic_query"@]
    } else if lane == "community"@ {
        seq!["architecture_communities"@]
    } else if lane == "route"@ {
        seq!["route_lookup"@]
    } else {
        Seq::empty()
    }
}

fn strings_of(list: Vec<&str>) -> (out: Vec<String>)
    ensures
        out@.map_values(|s: String| s@) == list@.map_values(|s: &str| s@),
{
    let mut out: Vec<String> = Vec::new();
    let mut i: usize = 0;
    while i < list.len()
        invariant
            i <= list.len(),
            out@.map_values(|s: String| s@) == list@.take(i as int).map_values(|s: &str| s@),
        decreases list.len() - i,
    {
        let mut s = String::new();
        push_str(&mut s, list[i]);
        proof {
            assert(s@ =~= list@[i as int]@);
        }
        let ghost old = out@;
        let ghost sv = s@;
        out.push(s);
        proof {
            assert(list@.take(i + 1) == list@.take(i as int).push(list@[i as int]));
            assert(out@.map_values(|s: String| s@) =~= old.map_values(|s: String| s@).push(sv));
            assert(list@.take(i + 1).map_values(|s: &str| s@) =~= list@.take(i as int).map_values(|s: &str| s@).push(list@[i as int]@));
            assert(out@.map_values(|s: String| s@) =~= list@.take(i + 1).map_values(|s: &str| s@));
        }
        i = i + 1;
    }
    proof {
        assert(list@.take(list.len() as int) == list@);
    }
    out
}

/// Capabilities a lane enables when its status is `ok`.
pub fn lane_capabilities(lane: &str) -> (caps: Vec<String>)
    ensures
        caps@.map_values(|s: String| s@) == lane_caps(lane@),
{
    let list: Vec<&str> = if str_eq(lane, "adr") {
        vec!["governance_lookup", "consistency_check"]
    } else if str_eq(lane, "symbol") {
        vec!["symbol_lookup", "call_path", "anchor_verification"]
    } else if str_eq(lane, "commit") {
        vec!["commit_evidence", "stale_decision_activity"]
    } else if str_eq(lane, "embedding") {
        vec!["semantic_query"]
    } else if str_eq(lane, "community") {
        vec!["architecture_communities"]
    } else if str_eq(lane, "route") {
        vec!["route_lookup"]
    } else {
        Vec::new()
    };
    let caps = strings_of(list);
    proof {
        assert(caps@.map_values(|s: String| s@) =~= lane_caps(lane@));
    }
    caps
}

/// The status of one index lane: it enables its capabilities only while its
/// status is `ok`.
pub fn lane_status(
    lane: String,
    last_ingested_commit: Option<String>,
    lag_commits: Option<u32>,
    status: String,
) -> (l: LaneStatus)
    ensures
        l.lane == lane,
        l.last_ingested_commit == last_ingested_commit,
        l.lag_commits == lag_commits,
        l.status == status,
        l.capabilities@.map_values(|s: String| s@) == (if status@ == "ok"@ {
            lane_caps(lane@)
        } else {
            Seq::empty()
        }),
{
    let capabilities = if str_eq(status.as_str(), "ok") {
        lane_capabilities(lane.as_str())
    } else {
        let v: Vec<String> = Vec::new();
        proof {
            assert(v@.map_values(|s: String| s@) =~= Seq::<Seq<char>>::empty());
        }
        v
    };
    LaneStatus { lane, last_ingested_commit, lag_commits, status, capabilities }
}

// ---------------------------------------------------------------------------
// HEAD
// ---------------------------------------------------------------------------

/// The sentinel used as ref and commit when the path is not a git repository.
pub open spec fn working_tree() -> Seq<char> {
    "working-tree"@
}

/// The state verification runs against: `HEAD` at the given commit, or the
/// working-tree sentinel when no commit could be resolved.
pub open spec fn head_ref_spec(commit: Option<Seq<char>>, h: HeadRef) -> bool {
    match commit {
        Some(sha) => h.repo_ref@ == "HEAD"@ && h.repo_commit@ == sha,
        None => h.repo_ref@ == working_tree() && h.repo_commit@ == working_tree(),
    }
}

/// Builds the verification target from the commit `HEAD` resolved to, if any.
pub fn head_ref_from(commit: Option<String>) -> (h: HeadRef)
    ensures
        head_ref_spec(
            match commit {
                Some(c) => Some(c@),
                None => None,
            },
            h,
        ),
{
    match commit {
        Some(sha) => {
            let mut r = String::new();
            push_str(&mut r, "HEAD");
            HeadRef { repo_ref: r, repo_commit: sha }
        },
        None => {
            let mut r = String::new();
            push_str(&mut r, "working-tree");
            let mut c = String::new();
            push_str(&mut c, "working-tree");
            HeadRef { repo_ref: r, repo_commit: c }
        },
    }
}

/// The `HEAD` commit sha of a resolved verification target, or nothing when
/// the repository is not a git repository.
pub fn head_commit(head: &HeadRef) -> (c: Option<String>)
    ensures
        head.repo_commit@ == working_tree() ==> c.is_none(),
        head.repo_commit@ != working_tree() ==> (c matches Some(s) && s@ == head.repo_commit@),
{
    if str_eq(head.repo_commit.as_str(), "working-tree") {
        None
    } else {
        Some(head.repo_commit.clone())
    }
}

// ---------------------------------------------------------------------------
// View hash
// ---------------------------------------------------------------------------

/// The key a freshness manifest is stored under: the hash of the tool name
/// and its canonical arguments, separated by U+001F.
pub open spec fn view_hash_spec(tool: Seq<char>, canonical_args: Seq<char>) -> Seq<char> {
    sha256_hex_spec(tool.push('\u{1f}') + canonical_args)
}

/// SHA-256 hex of `tool`, U+001F, and `canonical_args`.
pub fn view_hash(tool: &str, canonical_args: &str) -> (h: String)
    ensures
        h@ == view_hash_spec(tool@, canonical_args@),
{
    let mut s = String::new();
    push_str(&mut s, tool);
    push_char(&mut s, '\u{1f}');
    push_str(&mut s, canonical_args);
    proof {
        assert(s@ =~= tool@.push('\u{1f}') + canonical_args@);
    }
    sha256_hex(s.as_str())
}

// ---------------------------------------------------------------------------
// Repo-wide staleness warning
// ---------------------------------------------------------------------------

/// The warning when the symbol index looks older than `HEAD`.
pub open spec fn stale_index_text(last_ingested: Seq<char>) -> Seq<char> {
    "symbol index may be stale (last ingested "@ + last_ingested.take(10)
        + "); git HEAD is newer — run sync_incremental or ingest_symbols to refresh"@
}

/// The repo-wide staleness warning (`stale_index_warning`), from the time of
/// the last ingestion (its text and its seconds) and the time of the `HEAD`
/// commit: a warning when `HEAD` is newer, quoting the date part of the
/// ingestion time. The time is one that parsed as RFC 3339, so its first
/// ten characters are ASCII and the date part is its first ten bytes.
pub fn stale_index_message(last_ingested: &str, last_ingested_secs: i64, head_secs: i64) -> (r: Option<String>)
    requires
        last_ingested@.len() >= 10,
        forall|i: int| 0 <= i < 10 ==> (#[trigger] last_ingested@[i] as u32) < 0x80,
    ensures
        head_secs > last_ingested_secs <==> r is Some,
        r matches Some(w) ==> w@ == stale_index_text(last_ingested@),
{
    if head_secs <= last_ingested_secs {
        return None;
    }
    let cs = chars_of(last_ingested);
    let date = crate::scan::slice_chars(&cs, 0, 10);
    let mut w = String::new();
    push_str(&mut w, "symbol index may be stale (last ingested ");
    let d = crate::text::string_of(&date);
    push_str(&mut w, d.as_str());
    push_str(&mut w, "); git HEAD is newer — run sync_incremental or ingest_symbols to refresh");
    proof {
        assert(date@ == last_ingested@.take(10));
    }
    Some(w)
}

/// The repo-wide staleness warning, from the time of the last ingestion and
/// the time of the `HEAD` commit (none outside a git repository): a warning
/// exactly when both are known, the ingestion time is RFC 3339, and `HEAD`
/// is newer.
pub fn stale_index_warning(last_ingested: &str, head_secs: Option<i64>) -> (r: Option<String>)
    ensures
        r is Some <==> (head_secs matches Some(h) && crate::dates::rfc3339_seconds(last_ingested@) matches Some(l)
            && h > l),
        r matches Some(w) ==> w@ == stale_index_text(last_ingested@),
{
    let last = crate::dates::rfc3339_timestamp(last_ingested)?;
    let head = head_secs?;
    proof {
        assert forall|i: int| 0 <= i < 10 implies (#[trigger] last_ingested@[i] as u32) < 0x80 by {
            assert((last_ingested@[i] as u32) < 0x80);
        }
    }
    stale_index_message(last_ingested, last, head)
}

} // verus!
