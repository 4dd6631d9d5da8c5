//! Recording a decision episode: the decisions an agent reports, which fact
//! relations are accepted, how decision texts are compared and incoming
//! decisions merged into known ones, which constraints and file links a
//! merge adds, the prompt for fact extraction, the evidence an episode's
//! decisions cite, and the answer.

use vstd::prelude::*;

use crate::dates::{days_later, rfc3339_days_later};
use crate::text::{collapse_ws, is_ws, push_char, push_str, str_lowercase};
use crate::tools::freshness::{AnchorIdentity, AnchorSource, Locator};

verus! {

/// A decision reported in an episode.
#[derive(Debug)]
pub struct EpisodeDecision {
    /// Optional short title for the decision.
    pub title: Option<String>,
    /// The decision text (what was decided).
    pub text: String,
    /// Optional constraints derived from the decision.
    pub constraints: Vec<String>,
    /// Optional affected files mentioned by the agent.
    pub affected_files: Vec<String>,
    /// Optional canonical entity names involved in this decision.
    pub entities: Vec<String>,
}

/// The relations an extracted fact may have.
pub open spec fn fact_relations() -> Seq<Seq<char>> {
    seq![
        "must_use"@,
        "must_not_use"@,
        "must_call"@,
        "must_not_call"@,
        "requires"@,
        "prohibits"@,
        "replaces"@,
        "depends_on"@,
        "conflicts_with"@,
        "applies_to"@,
    ]
}

/// Whether an extracted fact's relation is one of `fact_relations`.
pub fn is_valid_relation(r: &str) -> (b: bool)
    ensures
        b == fact_relations().contains(r@),
{
    let names: [&str; 10] = [
        "must_use",
        "must_not_use",
        "must_call",
        "must_not_call",
        "requires",
        "prohibits",
        "replaces",
        "depends_on",
        "conflicts_with",
        "applies_to",
    ];
    let mut i: usize = 0;
    proof {
        assert(names@.map_values(|s: &str| s@) =~= fact_relations());
    }
    while i < 10
        invariant
            i <= 10,
            names@.map_values(|s: &str| s@) == fact_relations(),
            forall|k: int| 0 <= k < i ==> fact_relations()[k] != r@,
        decreases 10 - i,
    {
        if crate::text::str_eq(names[i], r) {
            proof {
                assert(fact_relations()[i as int] == r@);
            }
            return true;
        }
        i = i + 1;
    }
    false
}

/// The warning for a fact whose relation is not accepted.
pub fn unsupported_relation_warning(r: &str) -> (w: String)
    ensures
        w@ == "ignored extracted fact with unsupported relation '"@ + r@ + "'"@,
{
    let mut w = String::from_str("ignored extracted fact with unsupported relation '");
    push_str(&mut w, r);
    push_str(&mut w, "'");
    w
}

/// A decision text lowercased, with whitespace runs collapsed to single
/// spaces and no leading or trailing whitespace.
pub open spec fn normalized_text(s: Seq<char>) -> Seq<char> {
    collapse_ws(str_lowercase(s))
}

/// Normalises a decision text for comparison (`normalized_text`).
pub fn normalize_decision_text(s: &str) -> (r: String)
    ensures
        r@ == normalized_text(s@),
{
    let lower = crate::text::to_lowercase(s);
    collapse_whitespace(lower.as_str())
}

/// `s` with each run of whitespace between words made one space and no
/// leading or trailing whitespace (`collapse_ws`).
pub fn collapse_whitespace(s: &str) -> (r: String)
    ensures
        r@ == collapse_ws(s@),
{
    let cs = crate::text::chars_of(s);
    let mut out = String::new();
    let mut i: usize = 0;
    proof {
        assert(cs@.take(0) == Seq::<char>::empty());
    }
    while i < cs.len()
        invariant
            i <= cs.len(),
            out@ == collapse_ws(cs@.take(i as int)),
        decreases cs.len() - i,
    {
        let c = cs[i];
        let ghost t = cs@.take(i + 1);
        proof {
            assert(t.drop_last() == cs@.take(i as int));
            assert(t.last() == c);
        }
        if !crate::text::is_whitespace(c) {
            if i >= 1 && crate::text::is_whitespace(cs[i - 1]) && out.as_str().unicode_len() > 0 {
                proof {
                    assert(t[t.len() - 2] == cs@[i - 1]);
                }
                push_char(&mut out, ' ');
            } else {
                proof {
                    if i >= 1 {
                        assert(t[t.len() - 2] == cs@[i - 1]);
                    }
                }
            }
            push_char(&mut out, c);
        }
        i = i + 1;
    }
    proof {
        assert(cs@.take(cs.len() as int) == cs@);
    }
    out
}

/// The position of the first known decision whose normalised text equals
/// `normalized`.
pub fn exact_duplicate(known: &Vec<String>, normalized: &str) -> (r: Option<usize>)
    ensures
        match r {
            Some(i) => i < known@.len() && known@[i as int]@ == normalized@ && forall|k: int|
                0 <= k < i ==> known@[k]@ != normalized@,
            None => forall|k: int| 0 <= k < known@.len() ==> known@[k]@ != normalized@,
        },
{
    let mut i: usize = 0;
    while i < known.len()
        invariant
            i <= known.len(),
            forall|k: int| 0 <= k < i ==> known@[k]@ != normalized@,
        decreases known.len() - i,
    {
        if crate::text::str_eq(known[i].as_str(), normalized) {
            return Some(i);
        }
        i = i + 1;
    }
    None
}

/// The instructions for fact extraction, followed by the episode text.
pub open spec fn fact_prompt(content: Seq<char>) -> Seq<char> {
    "Extract architectural decisions and constraints from the text below. Return a JSON array where each element has: {\"subject\": string, \"relation\": one of [must_use,must_not_use,must_call,must_not_call,requires,prohibits,replaces,depends_on,conflicts_with,applies_to], \"object\": string, \"confidence\": number 0.0-1.0, \"temporal_hint\": string or null, \"rationale\": string or null}. Omit observations and questions. Return [] if nothing qualifies.\n"@
        + content
}

/// The prompt that asks a model for the facts in an episode (`fact_prompt`).
pub fn fact_extraction_prompt(content: &str) -> (p: String)
    ensures
        p@ == fact_prompt(content@),
{
    let mut p = String::from_str(
        "Extract architectural decisions and constraints from the text below. Return a JSON array where each element has: {\"subject\": string, \"relation\": one of [must_use,must_not_use,must_call,must_not_call,requires,prohibits,replaces,depends_on,conflicts_with,applies_to], \"object\": string, \"confidence\": number 0.0-1.0, \"temporal_hint\": string or null, \"rationale\": string or null}. Omit observations and questions. Return [] if nothing qualifies.\n",
    );
    push_str(&mut p, content);
    p
}

/// The evidence an episode-sourced decision cites when it has no claim yet:
/// the episode itself, anchored over all of
/// its content.
pub fn episode_anchor(episode_id: &str, content: &str) -> (r: (AnchorIdentity, Locator))
    ensures
        r.0.source_kind == AnchorSource::Episode,
        r.0.source_uri@ == "episode:"@ + episode_id@,
        r.0.subpath@ == Seq::<char>::empty(),
        r.1 matches Locator::Chars { start, end } && start == 0 && end == content@.len(),
{
    let mut uri = String::new();
    push_str(&mut uri, "episode:");
    push_str(&mut uri, episode_id);
    let identity = AnchorIdentity { source_kind: AnchorSource::Episode, source_uri: uri, subpath: String::new() };
    let n = crate::text::chars_of(content).len();
    (identity, Locator::Chars { start: 0, end: n })
}

/// The period a fact holds in.
#[derive(Debug)]
pub struct TemporalRange {
    pub valid_from: String,
    pub valid_to: Option<String>,
}

/// `c` in ASCII lower case (`char::to_ascii_lowercase`).
pub open spec fn ascii_lower(c: char) -> char {
    if 'A' <= c && c <= 'Z' {
        ((c as u32) + 32) as char
    } else {
        c
    }
}

/// The temporal hint of an extracted fact, trimmed and in ASCII lower case.
pub open spec fn hint_word(h: Seq<char>) -> Seq<char> {
    crate::text::trim_spec(h).map_values(|c: char| ascii_lower(c))
}

/// The period of a fact (`parse_temporal_hint`): from the episode on; a
/// `this sprint` hint ends it fourteen days later.
pub fn parse_temporal_hint(hint: Option<&str>, occurred_at: &str) -> (r: TemporalRange)
    ensures
        r.valid_from@ == occurred_at@,
        match hint {
            Some(h) if hint_word(h@) == "this sprint"@ => match r.valid_to {
                Some(t) => days_later(occurred_at@, 14) == Some(t@),
                None => days_later(occurred_at@, 14) is None,
            },
            _ => r.valid_to is None,
        },
{
    let mut valid_to: Option<String> = None;
    if let Some(h) = hint {
        let t = crate::text::trim(h);
        let cs = crate::text::chars_of(t.as_str());
        let mut w = String::new();
        let mut i: usize = 0;
        while i < cs.len()
            invariant
                i <= cs.len(),
                cs@ == crate::text::trim_spec(h@),
                w@ == hint_word(h@).take(i as int),
            decreases cs.len() - i,
        {
            let c = cs[i];
            let l = if 'A' <= c && c <= 'Z' {
                proof {
                    assert((c as u32) + 32 <= 0x7f);
                }
                ((c as u8) + 32) as char
            } else {
                c
            };
            proof {
                if 'A' <= c && c <= 'Z' {
                    assert((c as u8) as u32 == c as u32);
                    assert(l == ascii_lower(c));
                }
                assert(hint_word(h@).take(i + 1) == hint_word(h@).take(i as int).push(hint_word(h@)[i as int]));
            }
            push_char(&mut w, l);
            i = i + 1;
        }
        proof {
            assert(hint_word(h@).take(cs.len() as int) == hint_word(h@));
        }
        if crate::text::str_eq(w.as_str(), "this sprint") {
            valid_to = rfc3339_days_later(occurred_at, 14);
        }
    }
    TemporalRange { valid_from: crate::text::string_of(&crate::text::chars_of(occurred_at)), valid_to }
}

// ---------------------------------------------------------------------------
// Placing an episode's decisions
// ---------------------------------------------------------------------------

/// Where an incoming decision goes.
#[derive(Debug, Clone, Copy, PartialEq, Eq, Structural)]
pub enum EpisodeStep {
    /// Merged into the known decision at this position, whose normalised text
    /// is the same.
    MergeExact(usize),
    /// Merged into the known decision at this position, whose embedding is
    /// similar enough.
    MergeSimilar(usize),
    /// Stored as a new decision.
    Insert,
}

/// Entity resolution for an incoming decision:
/// the first known decision with the same normalised text wins; otherwise the
/// most similar known decision by embedding, when the caller found one
/// (`similar`: its position, and whether its similarity reaches the dedup
/// threshold); otherwise the decision is new.
pub fn place_episode_decision(known: &Vec<String>, normalized: &str, similar: Option<(usize, bool)>) -> (s:
    EpisodeStep)
    ensures
        match s {
            EpisodeStep::MergeExact(i) => i < known@.len() && known@[i as int]@ == normalized@ && forall|k: int|
                0 <= k < i ==> known@[k]@ != normalized@,
            EpisodeStep::MergeSimilar(i) => (forall|k: int| 0 <= k < known@.len() ==> known@[k]@ != normalized@)
                && similar == Some((i, true)),
            EpisodeStep::Insert => (forall|k: int| 0 <= k < known@.len() ==> known@[k]@ != normalized@) && !(
            similar matches Some((_, true))),
        },
{
    match exact_duplicate(known, normalized) {
        Some(i) => EpisodeStep::MergeExact(i),
        None => match similar {
            Some((i, true)) => EpisodeStep::MergeSimilar(i),
            _ => EpisodeStep::Insert,
        },
    }
}

/// The first position of `n` in `known`.
pub open spec fn first_position(known: Seq<Seq<char>>, n: Seq<char>) -> int {
    choose|i: int| 0 <= i < known.len() && known[i] == n && forall|k: int| 0 <= k < i ==> known[k] != n
}

/// Where an incoming decision with normalised text `n` goes, given the
/// normalised texts of the known decisions and the most similar one
/// (`place_episode_decision`).
pub open spec fn placement(known: Seq<Seq<char>>, n: Seq<char>, similar: Option<(usize, bool)>) -> EpisodeStep {
    if exists|i: int| 0 <= i < known.len() && known[i] == n {
        EpisodeStep::MergeExact(first_position(known, n) as usize)
    } else {
        match similar {
            Some((i, true)) => EpisodeStep::MergeSimilar(i),
            _ => EpisodeStep::Insert,
        }
    }
}

/// The first position of `n` is the position before which `n` does not
/// occur.
pub proof fn lemma_first_position(known: Seq<Seq<char>>, n: Seq<char>, i: int)
    requires
        0 <= i < known.len(),
        known[i] == n,
        forall|k: int| 0 <= k < i ==> known[k] != n,
    ensures
        first_position(known, n) == i,
{
    let c = first_position(known, n);
    assert(0 <= c < known.len() && known[c] == n && forall|k: int| 0 <= k < c ==> known[k] != n);
    if c < i {
        assert(known[c] != n);
    } else if i < c {
        assert(known[i] != n);
    }
}

proof fn lemma_placement(known: Seq<String>, n: Seq<char>, similar: Option<(usize, bool)>, s: EpisodeStep)
    requires
        match s {
            EpisodeStep::MergeExact(i) => i < known.len() && known[i as int]@ == n && forall|k: int|
                0 <= k < i ==> known[k]@ != n,
            EpisodeStep::MergeSimilar(i) => (forall|k: int| 0 <= k < known.len() ==> known[k]@ != n) && similar
                == Some((i, true)),
            EpisodeStep::Insert => (forall|k: int| 0 <= k < known.len() ==> known[k]@ != n) && !(similar matches Some(
                (_, true),
            )),
        },
    ensures
        s == placement(crate::text::views(known), n, similar),
{
    let ks = crate::text::views(known);
    match s {
        EpisodeStep::MergeExact(i) => {
            assert(ks[i as int] == n);
            lemma_first_position(ks, n, i as int);
        },
        _ => {
            assert(!exists|i: int| 0 <= i < ks.len() && ks[i] == n) by {
                assert forall|i: int| 0 <= i < ks.len() implies ks[i] != n by {
                    assert(ks[i] == known[i]@);
                }
            }
        },
    }
}

/// The decisions of an episode as they are placed one after another: the
/// normalised texts of the known open decisions (those stored before the
/// episode, then those it inserted, by position), and how many incoming
/// decisions were merged.
pub struct EpisodeLedger {
    pub known: Vec<String>,
    pub merged: usize,
}

impl EpisodeLedger {
    /// A ledger over the normalised texts of the decisions already stored.
    pub fn new(known: Vec<String>) -> (l: EpisodeLedger)
        ensures
            l.known == known,
            l.merged == 0,
    {
        EpisodeLedger { known, merged: 0 }
    }

    /// Places one incoming decision with normalised text `normalized`
    /// (`place_episode_decision`) and records it: a new decision becomes
    /// known, at the next position; a merge is counted.
    pub fn record(&mut self, normalized: &str, similar: Option<(usize, bool)>) -> (s: EpisodeStep)
        requires
            old(self).merged < usize::MAX,
        ensures
            s == placement(crate::text::views(old(self).known@), normalized@, similar),
            s == EpisodeStep::Insert ==> final(self).known@.len() == old(self).known@.len() + 1
                && final(self).known@.take(old(self).known@.len() as int) == old(self).known@
                && final(self).known@.last()@ == normalized@ && final(self).merged == old(self).merged,
            s != EpisodeStep::Insert ==> final(self).known@ == old(self).known@ && final(self).merged
                == old(self).merged + 1,
    {
        let s = place_episode_decision(&self.known, normalized, similar);
        proof {
            lemma_placement(self.known@, normalized@, similar, s);
        }
        match s {
            EpisodeStep::Insert => {
                let ghost k0 = self.known@;
                self.known.push(crate::text::string_of(&crate::text::chars_of(normalized)));
                proof {
                    assert(self.known@.take(k0.len() as int) == k0);
                }
            },
            _ => {
                self.merged = self.merged + 1;
            },
        }
        s
    }

    /// The answer to the episode once its decisions are placed
    /// (`episode_answer`).
    pub fn answer(&self, episode_id: &str) -> (a: String)
        ensures
            a@ == if self.merged > 0 {
                "Stored episode "@ + episode_id@ + " ("@ + crate::text::decimal(self.merged as nat)
                    + " decision(s) merged into existing decisions)"@
            } else {
                "Stored episode "@ + episode_id@
            },
    {
        episode_answer(episode_id, self.merged)
    }
}

/// The title of an episode decision: its own, or `Episode decision`.
pub fn episode_decision_title(title: Option<String>) -> (t: String)
    ensures
        t@ == match title {
            Some(x) => x@,
            None => "Episode decision"@,
        },
{
    match title {
        Some(x) => x,
        None => String::from_str("Episode decision"),
    }
}

/// Some text of `existing` is the normalised text of `c`.
pub open spec fn already_carried(existing: Seq<String>, c: Seq<char>) -> bool {
    exists|k: int| 0 <= k < existing.len() && #[trigger] existing[k]@ == normalized_text(c)
}

/// Which of an incoming decision's constraints are stored, by position: on a
/// merge, those whose normalised text the surviving decision already carries
/// are skipped (`existing` holds those normalised texts).
pub fn new_constraints(existing: &Vec<String>, constraints: &Vec<String>) -> (r: Vec<usize>)
    ensures
        forall|k: int| 0 <= k < r@.len() ==> #[trigger] r@[k] < constraints@.len(),
        forall|a: int, b: int| 0 <= a < b < r@.len() ==> #[trigger] r@[a] < #[trigger] r@[b],
        forall|j: int|
            0 <= j < constraints@.len() ==> (r@.contains(j as usize) <==> !already_carried(
                existing@,
                #[trigger] constraints@[j]@,
            )),
{
    let mut r: Vec<usize> = Vec::new();
    let mut j: usize = 0;
    while j < constraints.len()
        invariant
            j <= constraints@.len(),
            forall|k: int| 0 <= k < r@.len() ==> #[trigger] r@[k] < j,
            forall|a: int, b: int| 0 <= a < b < r@.len() ==> #[trigger] r@[a] < #[trigger] r@[b],
            forall|q: int|
                0 <= q < j ==> (r@.contains(q as usize) <==> !already_carried(existing@, #[trigger] constraints@[q]@)),
        decreases constraints.len() - j,
    {
        let n = normalize_decision_text(constraints[j].as_str());
        let found = exact_duplicate(existing, n.as_str());
        let ghost r0 = r@;
        if found.is_none() {
            r.push(j);
        }
        proof {
            assert forall|q: int| 0 <= q < j + 1 implies (r@.contains(q as usize) <==> !already_carried(
                existing@,
                #[trigger] constraints@[q]@,
            )) by {
                if q < j {
                    if r@.contains(q as usize) {
                        let w = choose|w: int| 0 <= w < r@.len() && r@[w] == q as usize;
                        if w < r0.len() {
                            assert(r0[w] == q as usize);
                        }
                    }
                    if r0.contains(q as usize) {
                        let w = choose|w: int| 0 <= w < r0.len() && r0[w] == q as usize;
                        assert(r@[w] == q as usize);
                    }
                } else {
                    if found.is_none() {
                        assert(r@[r@.len() - 1] == j);
                        if already_carried(existing@, constraints@[q]@) {
                            let k = choose|k: int| 0 <= k < existing@.len() && #[trigger] existing@[k]@ == normalized_text(constraints@[q]@);
                            assert(existing@[k]@ != n@);
                        }
                    } else {
                        if r@.contains(q as usize) {
                            let w = choose|w: int| 0 <= w < r@.len() && r@[w] == q as usize;
                            assert(r0[w] < j);
                        }
                        let i = found->0;
                        assert(existing@[i as int]@ == normalized_text(constraints@[q]@));
                    }
                }
            }
        }
        j = j + 1;
    }
    r
}

/// The answer to a recorded episode: it names the episode, and how many
/// decisions were merged into existing ones when there were any.
pub fn episode_answer(episode_id: &str, merged: usize) -> (a: String)
    ensures
        a@ == if merged > 0 {
            "Stored episode "@ + episode_id@ + " ("@ + crate::text::decimal(merged as nat)
                + " decision(s) merged into existing decisions)"@
        } else {
            "Stored episode "@ + episode_id@
        },
{
    let mut a = String::new();
    push_str(&mut a, "Stored episode ");
    push_str(&mut a, episode_id);
    if merged > 0 {
        push_str(&mut a, " (");
        crate::text::push_decimal(&mut a, merged as u64);
        push_str(&mut a, " decision(s) merged into existing decisions)");
    }
    a
}

/// The warning for an episode decision merged into an existing one;
/// `similarity` is the match similarity written to two decimals.
pub fn merge_warning(title: &str, existing_id: &str, similarity: &str) -> (w: String)
    ensures
        w@ == "episode decision '"@ + title@ + "' merged into existing decision "@ + existing_id@
            + " (similarity "@ + similarity@ + ")"@,
{
    let mut w = String::new();
    push_str(&mut w, "episode decision '");
    push_str(&mut w, title);
    push_str(&mut w, "' merged into existing decision ");
    push_str(&mut w, existing_id);
    push_str(&mut w, " (similarity ");
    push_str(&mut w, similarity);
    push_str(&mut w, ")");
    w
}

/// Some path of `linked` is `f`.
pub open spec fn already_linked(linked: Seq<String>, f: Seq<char>) -> bool {
    exists|k: int| 0 <= k < linked.len() && #[trigger] linked[k]@ == f
}

/// Which of an incoming decision's affected files get a new link, by
/// position: on a merge, those the surviving decision already links
/// (`linked`) are skipped; the others are kept, repeats included.
pub fn unlinked_files(linked: &Vec<String>, files: &Vec<String>) -> (r: Vec<usize>)
    ensures
        forall|k: int| 0 <= k < r@.len() ==> #[trigger] r@[k] < files@.len(),
        forall|a: int, b: int| 0 <= a < b < r@.len() ==> #[trigger] r@[a] < #[trigger] r@[b],
        forall|j: int|
            0 <= j < files@.len() ==> (r@.contains(j as usize) <==> !already_linked(linked@, #[trigger] files@[j]@)),
{
    let mut r: Vec<usize> = Vec::new();
    let mut j: usize = 0;
    while j < files.len()
        invariant
            j <= files@.len(),
            forall|k: int| 0 <= k < r@.len() ==> #[trigger] r@[k] < j,
            forall|a: int, b: int| 0 <= a < b < r@.len() ==> #[trigger] r@[a] < #[trigger] r@[b],
            forall|q: int| 0 <= q < j ==> (r@.contains(q as usize) <==> !already_linked(linked@, #[trigger] files@[q]@)),
        decreases files.len() - j,
    {
        let found = exact_duplicate(linked, files[j].as_str());
        let ghost r0 = r@;
        if found.is_none() {
            r.push(j);
        }
        proof {
            assert forall|q: int| 0 <= q < j + 1 implies (r@.contains(q as usize) <==> !already_linked(
                linked@,
                #[trigger] files@[q]@,
            )) by {
                if q < j {
                    if r@.contains(q as usize) {
                        let w = choose|w: int| 0 <= w < r@.len() && r@[w] == q as usize;
                        if w < r0.len() {
                            assert(r0[w] == q as usize);
                        }
                    }
                    if r0.contains(q as usize) {
                        let w = choose|w: int| 0 <= w < r0.len() && r0[w] == q as usize;
                        assert(r@[w] == q as usize);
                    }
                } else {
                    if found.is_none() {
                        assert(r@[r@.len() - 1] == j);
                        if already_linked(linked@, files@[q]@) {
                            let k = choose|k: int| 0 <= k < linked@.len() && #[trigger] linked@[k]@ == files@[q]@;
                            assert(linked@[k]@ != files@[j as int]@);
                        }
                    } else {
                        if r@.contains(q as usize) {
                            let w = choose|w: int| 0 <= w < r@.len() && r@[w] == q as usize;
                            assert(r0[w] < j);
                        }
                        let i = found->0;
                        assert(linked@[i as int]@ == files@[q]@);
                    }
                }
            }
        }
        j = j + 1;
    }
    r
}

} // verus!
