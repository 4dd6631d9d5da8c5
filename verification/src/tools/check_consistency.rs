//! Cross-ADR consistency heuristics: obligation polarity of a constraint, its
//! subject-matter terms, which pairs of constraints from different decisions
//! contradict each other, inconsistent supersessions, and the texts and the
//! order in which conflicts are reported.

use vstd::prelude::*;

use crate::tools::ingest_symbols::{str_le, str_lt};
use crate::text::{
    chars_of, contains_seq, seq_eq, str_contains, str_lowercase, to_lowercase, views, words_longer,
    words_of,
};

verus! {

/// Above this many constraints the pairwise contradiction check is skipped.
pub const MAX_PAIRWISE_CONSTRAINTS: usize = 400;

/// Phrases that mark a prohibition.
pub open spec fn negation_markers() -> Seq<Seq<char>> {
    seq![
        "must not"@,
        "shall not"@,
        "should not"@,
        "may not"@,
        "do not"@,
        "don't"@,
        "never"@,
        "prohibit"@,
        "forbid"@,
        "avoid"@,
    ]
}

/// Obligation and glue words that carry no subject matter.
pub open spec fn stopwords() -> Seq<Seq<char>> {
    seq![
        "must"@, "shall"@, "should"@, "will"@, "with"@, "that"@, "this"@, "from"@, "into"@,
        "have"@, "when"@, "then"@, "than"@, "them"@, "they"@, "each"@, "every"@, "always"@,
        "never"@, "only"@, "over"@, "under"@, "through"@, "directly"@, "avoid"@, "prohibited"@,
        "forbidden"@, "their"@, "there"@, "these"@, "those"@, "been"@, "being"@, "would"@,
        "could"@, "about"@,
    ]
}

/// The lowercased text contains one of the negation markers.
pub open spec fn has_negation_spec(text: Seq<char>) -> bool {
    negation_in(str_lowercase(text))
}

/// Some negation marker occurs in the (lowercased) text `l`.
pub open spec fn negation_in(l: Seq<char>) -> bool {
    exists|i: int| 0 <= i < negation_markers().len() && #[trigger] contains_seq(l, negation_markers()[i])
}

/// A word of more than three bytes of the lowercased text that is not a
/// stopword.
pub open spec fn is_content_term(text: Seq<char>, w: Seq<char>) -> bool {
    is_lowered_term(str_lowercase(text), w)
}

/// A word of more than three bytes of the (lowercased) text `l` that is not
/// a stopword.
pub open spec fn is_lowered_term(l: Seq<char>, w: Seq<char>) -> bool {
    words_longer(l, 3).contains(w) && !stopwords().contains(w)
}

/// Whether the constraint text reads as a prohibition.
pub fn has_negation(text: &str) -> (b: bool)
    ensures
        b == has_negation_spec(text@),
{
    let lower = to_lowercase(text);
    negation_in_lowered(lower.as_str())
}

/// Whether the lowercased constraint text `l` holds a negation marker.
pub fn negation_in_lowered(l: &str) -> (b: bool)
    ensures
        b == negation_in(l@),
{
    let b = str_contains(l, "must not") || str_contains(l, "shall not") || str_contains(
        l,
        "should not",
    ) || str_contains(l, "may not") || str_contains(l, "do not") || str_contains(l, "don't")
        || str_contains(l, "never") || str_contains(l, "prohibit") || str_contains(l, "forbid")
        || str_contains(l, "avoid");
    proof {
        let m = negation_markers();
        let t = l@;
        if b {
            if contains_seq(t, m[0]) {
            } else if contains_seq(t, m[1]) {
            } else if contains_seq(t, m[2]) {
            } else if contains_seq(t, m[3]) {
            } else if contains_seq(t, m[4]) {
            } else if contains_seq(t, m[5]) {
            } else if contains_seq(t, m[6]) {
            } else if contains_seq(t, m[7]) {
            } else if contains_seq(t, m[8]) {
            } else {
                assert(contains_seq(t, m[9]));
            }
        } else {
            assert forall|i: int| 0 <= i < m.len() implies !#[trigger] contains_seq(t, m[i]) by {
                if i == 0 {
                } else if i == 1 {
                } else if i == 2 {
                } else if i == 3 {
                } else if i == 4 {
                } else if i == 5 {
                } else if i == 6 {
                } else if i == 7 {
                } else if i == 8 {
                } else {
                }
            }
        }
    }
    b
}

/// Whether `w` is one of the stopwords.
pub fn is_stopword(w: &[char]) -> (b: bool)
    ensures
        b == stopwords().contains(w@),
{
    let list: Vec<&str> = vec![
        "must", "shall", "should", "will", "with", "that", "this", "from", "into", "have",
        "when", "then", "than", "them", "they", "each", "every", "always", "never", "only",
        "over", "under", "through", "directly", "avoid", "prohibited", "forbidden", "their",
        "there", "these", "those", "been", "being", "would", "could", "about",
    ];
    let ghost views = list@.map_values(|s: &str| s@);
    proof {
        assert(views =~= stopwords());
    }
    let mut i: usize = 0;
    while i < list.len()
        invariant
            i <= list.len(),
            views == list@.map_values(|s: &str| s@),
            views == stopwords(),
            forall|j: int| 0 <= j < i ==> views[j] != w@,
        decreases list.len() - i,
    {
        let cs = chars_of(list[i]);
        if seq_eq(&cs, w) {
            proof {
                assert(views[i as int] == w@);
            }
            return true;
        }
        i = i + 1;
    }
    false
}

/// Whether the list of strings holds one with the characters `w`.
pub fn holds_word(list: &Vec<String>, w: &[char]) -> (b: bool)
    ensures
        b == exists|j: int| 0 <= j < list@.len() && #[trigger] list@[j]@ == w@,
{
    let mut i: usize = 0;
    while i < list.len()
        invariant
            i <= list.len(),
            forall|j: int| 0 <= j < i ==> #[trigger] list@[j]@ != w@,
        decreases list.len() - i,
    {
        let cs = chars_of(list[i].as_str());
        if seq_eq(&cs, w) {
            return true;
        }
        i = i + 1;
    }
    false
}

/// The distinct subject-matter terms of a constraint: lowercased words of more
/// than three bytes that are not stopwords, each once, in order of first
/// occurrence.
pub fn content_terms(text: &str) -> (terms: Vec<String>)
    ensures
        forall|i: int, j: int|
            0 <= i < j < terms@.len() ==> #[trigger] terms@[i]@ != #[trigger] terms@[j]@,
        forall|i: int| 0 <= i < terms@.len() ==> is_content_term(text@, #[trigger] terms@[i]@),
        forall|w: Seq<char>|
            is_content_term(text@, w) ==> exists|i: int|
                0 <= i < terms@.len() && #[trigger] terms@[i]@ == w,
{
    let lower = to_lowercase(text);
    let terms = lowered_terms(lower.as_str());
    proof {
        assert forall|w: Seq<char>| is_content_term(text@, w) implies exists|i: int|
            0 <= i < terms@.len() && #[trigger] terms@[i]@ == w by {
            assert(is_lowered_term(lower@, w));
        }
    }
    terms
}

/// The distinct subject-matter terms of a lowercased constraint text `l`:
/// its words of more than three bytes that are not stopwords, each once, in
/// order of first occurrence.
pub fn lowered_terms(l: &str) -> (terms: Vec<String>)
    ensures
        forall|i: int, j: int|
            0 <= i < j < terms@.len() ==> #[trigger] terms@[i]@ != #[trigger] terms@[j]@,
        forall|i: int| 0 <= i < terms@.len() ==> is_lowered_term(l@, #[trigger] terms@[i]@),
        forall|w: Seq<char>|
            is_lowered_term(l@, w) ==> exists|i: int|
                0 <= i < terms@.len() && #[trigger] terms@[i]@ == w,
{
    let lc = chars_of(l);
    let ghost ws = words_longer(l@, 3);
    let words = crate::text::words_longer_than(&lc, 3);
    let mut terms: Vec<String> = Vec::new();
    let mut i: usize = 0;
    while i < words.len()
        invariant
            i <= words.len(),
            words@.len() == ws.len(),
            forall|k: int| 0 <= k < words@.len() ==> #[trigger] words@[k]@ == ws[k],
            ws == words_longer(l@, 3),
            forall|a: int, b: int|
                0 <= a < b < terms@.len() ==> #[trigger] terms@[a]@ != #[trigger] terms@[b]@,
            forall|a: int| 0 <= a < terms@.len() ==> is_lowered_term(l@, #[trigger] terms@[a]@),
            forall|k: int|
                0 <= k < i && !stopwords().contains(#[trigger] ws[k]) ==> exists|a: int|
                    0 <= a < terms@.len() && #[trigger] terms@[a]@ == ws[k],
        decreases words.len() - i,
    {
        let w = &words[i];
        if !is_stopword(w) && !holds_word(&terms, w) {
            let ghost old_terms = terms@;
            terms.push(crate::text::string_of(w));
            proof {
                assert(ws.contains(ws[i as int]));
                assert forall|k: int|
                    0 <= k < i + 1 && !stopwords().contains(#[trigger] ws[k]) implies exists|a: int|
                    0 <= a < terms@.len() && #[trigger] terms@[a]@ == ws[k] by {
                    if k < i {
                        let a = choose|a: int| 0 <= a < old_terms.len() && #[trigger] old_terms[a]@ == ws[k];
                        assert(terms@[a] == old_terms[a]);
                    } else {
                        assert(terms@[old_terms.len() as int]@ == ws[k]);
                    }
                }
            }
        } else {
            proof {
                assert forall|k: int|
                    0 <= k < i + 1 && !stopwords().contains(#[trigger] ws[k]) implies exists|a: int|
                    0 <= a < terms@.len() && #[trigger] terms@[a]@ == ws[k] by {
                    if k == i {
                        assert(words@[k]@ == ws[k]);
                    }
                }
            }
        }
        i = i + 1;
    }
    proof {
        assert forall|w: Seq<char>| is_lowered_term(l@, w) implies exists|a: int|
            0 <= a < terms@.len() && #[trigger] terms@[a]@ == w by {
            let k = choose|k: int| 0 <= k < ws.len() && ws[k] == w;
            assert(!stopwords().contains(ws[k]));
        }
    }
    terms
}

/// Some string of `l` has the characters `w`.
pub open spec fn in_list(l: Seq<String>, w: Seq<char>) -> bool {
    exists|j: int| 0 <= j < l.len() && #[trigger] l[j]@ == w
}

/// The terms of `a` that also occur in `b`, in the order of `a`.
pub open spec fn shared_spec(a: Seq<Seq<char>>, b: Seq<Seq<char>>) -> Seq<Seq<char>> {
    a.filter(|w: Seq<char>| b.contains(w))
}

proof fn lemma_shared_step(t: Seq<Seq<char>>, b: Seq<Seq<char>>)
    requires
        t.len() > 0,
    ensures
        shared_spec(t, b) == (if b.contains(t.last()) {
            shared_spec(t.drop_last(), b).push(t.last())
        } else {
            shared_spec(t.drop_last(), b)
        }),
{
    reveal(Seq::filter);
}

/// The terms of `a` that also occur in `b`, in the order of `a`
/// (`shared_spec`).
pub fn shared_terms(a: &Vec<String>, b: &Vec<String>) -> (shared: Vec<String>)
    ensures
        views(shared@) == shared_spec(views(a@), views(b@)),
        shared@.len() == count_shared(views(a@), views(b@)),
{
    let ghost av = views(a@);
    let ghost bv = views(b@);
    let mut shared: Vec<String> = Vec::new();
    let mut i: usize = 0;
    proof {
        reveal(Seq::filter);
        assert(av.take(0) =~= Seq::<Seq<char>>::empty());
        assert(views(shared@) =~= Seq::<Seq<char>>::empty());
    }
    while i < a.len()
        invariant
            i <= a.len(),
            av == views(a@),
            bv == views(b@),
            views(shared@) == shared_spec(av.take(i as int), bv),
            shared@.len() == count_shared(av.take(i as int), bv),
        decreases a.len() - i,
    {
        let cs = chars_of(a[i].as_str());
        let found = holds_word(b, &cs);
        proof {
            assert(av.take(i + 1).drop_last() == av.take(i as int));
            assert(av.take(i + 1).last() == a@[i as int]@);
            if found {
                let j = choose|j: int| 0 <= j < b@.len() && #[trigger] b@[j]@ == cs@;
                assert(bv[j] == cs@);
                assert(bv.contains(av.take(i + 1).last()));
            } else {
                assert forall|j: int| 0 <= j < bv.len() implies bv[j] != cs@ by {
                    assert(b@[j]@ == bv[j]);
                }
                assert(!bv.contains(av.take(i + 1).last()));
            }
        }
        proof {
            assert(av.len() == a@.len());
            lemma_shared_step(av.take(i + 1), bv);
        }
        if found {
            let ghost old_shared = shared@;
            let t = crate::text::copy_string(&a[i]);
            shared.push(t);
            proof {
                assert(views(shared@) =~= views(old_shared).push(a@[i as int]@));
            }
        }
        i = i + 1;
    }
    proof {
        assert(av.take(a.len() as int) == av);
    }
    shared
}

/// The shared terms as an explanation lists them: sorted in the order of
/// `str`.
pub fn sorted_shared_terms(a: &Vec<String>, b: &Vec<String>) -> (shared: Vec<String>)
    ensures
        views(shared@) == shared_spec(views(a@), views(b@)).sort_by(crate::tools::ingest_symbols::str_leq()),
{
    let mut shared = shared_terms(a, b);
    let ghost before = views(shared@);
    crate::tools::ingest_symbols::sort_strings(&mut shared);
    proof {
        let le = crate::tools::ingest_symbols::str_leq();
        crate::tools::ingest_symbols::lemma_str_leq_total_ordering();
        before.lemma_sort_by_ensures(le);
        vstd::seq_lib::lemma_sorted_unique(views(shared@), before.sort_by(le), le);
    }
    shared
}

/// How many entries of `a` also occur in `b`.
pub open spec fn count_shared(a: Seq<Seq<char>>, b: Seq<Seq<char>>) -> nat
    decreases a.len(),
{
    if a.len() == 0 {
        0
    } else if b.contains(a.last()) {
        count_shared(a.drop_last(), b) + 1
    } else {
        count_shared(a.drop_last(), b)
    }
}

/// Two constraints contradict when they belong to different decisions, have
/// opposite polarity, and share at least two terms making up at least half of
/// the smaller term set.
pub open spec fn contradicts_spec(
    same_decision: bool,
    negated_a: bool,
    negated_b: bool,
    shared: nat,
    len_a: nat,
    len_b: nat,
) -> bool {
    let smaller = if len_a <= len_b { len_a } else { len_b };
    !same_decision && negated_a != negated_b && shared >= 2 && smaller > 0 && shared * 2 >= smaller
}

/// Whether two constraints contradict, given their decisions, polarities and
/// term sets (each without repeats).
pub fn contradicts(
    same_decision: bool,
    negated_a: bool,
    terms_a: &Vec<String>,
    negated_b: bool,
    terms_b: &Vec<String>,
) -> (r: bool)
    ensures
        r == contradicts_spec(
            same_decision,
            negated_a,
            negated_b,
            count_shared(views(terms_a@), views(terms_b@)),
            terms_a@.len(),
            terms_b@.len(),
        ),
{
    if same_decision || negated_a == negated_b {
        return false;
    }
    let shared = shared_terms(terms_a, terms_b);
    let smaller = if terms_a.len() <= terms_b.len() {
        terms_a.len()
    } else {
        terms_b.len()
    };
    proof {
        lemma_count_shared_le(views(terms_a@), views(terms_b@));
    }
    shared.len() >= 2 && smaller > 0 && (shared.len() >= smaller || shared.len() >= smaller - shared.len())
}

proof fn lemma_count_shared_le(a: Seq<Seq<char>>, b: Seq<Seq<char>>)
    ensures
        count_shared(a, b) <= a.len(),
    decreases a.len(),
{
    if a.len() > 0 {
        lemma_count_shared_le(a.drop_last(), b);
    }
}

// ---------------------------------------------------------------------------
// Contradictory constraint pairs
// ---------------------------------------------------------------------------

/// A constraint as the contradiction check reads it: its decision, whether
/// it is a prohibition, and its content terms (each once).
#[derive(Debug, Clone)]
pub struct ConstraintFacts {
    pub decision_id: String,
    pub negated: bool,
    pub terms: Vec<String>,
}

/// The constraints `a` and `b` contradict each other (`contradicts_spec`).
pub open spec fn facts_contradict(a: ConstraintFacts, b: ConstraintFacts) -> bool {
    contradicts_spec(
        a.decision_id@ == b.decision_id@,
        a.negated,
        b.negated,
        count_shared(views(a.terms@), views(b.terms@)),
        a.terms@.len(),
        b.terms@.len(),
    )
}

/// `p` comes before `q` in the order of the pairwise scan.
pub open spec fn pair_before(p: (usize, usize), q: (usize, usize)) -> bool {
    p.0 < q.0 || (p.0 == q.0 && p.1 < q.1)
}

/// Every pair of constraints that contradict each other, as positions
/// `(i, j)` with `i < j`, in the order of a scan over `i` and then `j`.
pub fn contradictory_pairs(cs: &Vec<ConstraintFacts>) -> (r: Vec<(usize, usize)>)
    ensures
        forall|k: int|
            0 <= k < r@.len() ==> #[trigger] r@[k].0 < r@[k].1 < cs@.len() && facts_contradict(
                cs@[r@[k].0 as int],
                cs@[r@[k].1 as int],
            ),
        forall|i: int, j: int|
            0 <= i < j < cs@.len() && facts_contradict(#[trigger] cs@[i], #[trigger] cs@[j]) ==> r@.contains(
                (i as usize, j as usize),
            ),
        forall|a: int, b: int| 0 <= a < b < r@.len() ==> pair_before(#[trigger] r@[a], #[trigger] r@[b]),
{
    let mut r: Vec<(usize, usize)> = Vec::new();
    let mut i: usize = 0;
    while i < cs.len()
        invariant
            i <= cs@.len(),
            forall|k: int|
                0 <= k < r@.len() ==> #[trigger] r@[k].0 < r@[k].1 < cs@.len() && facts_contradict(
                    cs@[r@[k].0 as int],
                    cs@[r@[k].1 as int],
                ),
            forall|k: int| 0 <= k < r@.len() ==> #[trigger] r@[k].0 < i,
            forall|a: int, b: int| 0 <= a < b < r@.len() ==> pair_before(#[trigger] r@[a], #[trigger] r@[b]),
            forall|p: int, q: int|
                0 <= p < i && p < q < cs@.len() && facts_contradict(#[trigger] cs@[p], #[trigger] cs@[q])
                    ==> r@.contains((p as usize, q as usize)),
        decreases cs.len() - i,
    {
        let mut j: usize = i + 1;
        while j < cs.len()
            invariant
                i < cs@.len(),
                i + 1 <= j <= cs@.len(),
                forall|k: int|
                    0 <= k < r@.len() ==> #[trigger] r@[k].0 < r@[k].1 < cs@.len() && facts_contradict(
                        cs@[r@[k].0 as int],
                        cs@[r@[k].1 as int],
                    ),
                forall|k: int| 0 <= k < r@.len() ==> pair_before(#[trigger] r@[k], (i, j)),
                forall|a: int, b: int| 0 <= a < b < r@.len() ==> pair_before(#[trigger] r@[a], #[trigger] r@[b]),
                forall|p: int, q: int|
                    0 <= p < i && p < q < cs@.len() && facts_contradict(#[trigger] cs@[p], #[trigger] cs@[q])
                        ==> r@.contains((p as usize, q as usize)),
                forall|q: int|
                    i < q < j && facts_contradict(cs@[i as int], #[trigger] cs@[q]) ==> r@.contains(
                        (i, q as usize),
                    ),
            decreases cs.len() - j,
        {
            let same = crate::text::str_eq(cs[i].decision_id.as_str(), cs[j].decision_id.as_str());
            let ghost r0 = r@;
            if contradicts(same, cs[i].negated, &cs[i].terms, cs[j].negated, &cs[j].terms) {
                r.push((i, j));
                proof {
                    assert(r@[r0.len() as int] == (i, j));
                    assert forall|p: int, q: int|
                        0 <= p < i && p < q < cs@.len() && facts_contradict(#[trigger] cs@[p], #[trigger] cs@[q])
                            implies r@.contains((p as usize, q as usize)) by {
                        let w = choose|w: int| 0 <= w < r0.len() && r0[w] == (p as usize, q as usize);
                        assert(r@[w] == r0[w]);
                    }
                    assert forall|q: int|
                        i < q < j + 1 && facts_contradict(cs@[i as int], #[trigger] cs@[q]) implies r@.contains(
                            (i, q as usize),
                        ) by {
                        if q < j {
                            let w = choose|w: int| 0 <= w < r0.len() && r0[w] == (i, q as usize);
                            assert(r@[w] == r0[w]);
                        }
                    }
                }
            }
            j = j + 1;
        }
        i = i + 1;
    }
    r
}

// ---------------------------------------------------------------------------
// Supersession issues
// ---------------------------------------------------------------------------

/// A supersession as the store records it: which ADR supersedes which, the
/// status of the superseded one, and whether it is still open (no end of
/// validity).
#[derive(Debug, Clone)]
pub struct SupersessionPair {
    pub superseder: String,
    pub superseded: String,
    pub status: String,
    pub open: bool,
}

/// An inconsistency among supersessions, by the position of its pair.
#[derive(Debug, Clone, Copy, PartialEq, Eq, Structural)]
pub enum SupersessionIssue {
    /// The pair's ADRs each supersede the other; reported once, at the pair
    /// whose superseder sorts first.
    Cycle(usize),
    /// The superseded ADR is still open.
    StillOpen(usize),
}

/// The pair at `p` is one half of a supersession cycle, and the half that
/// reports it.
pub open spec fn cycle_at(ps: Seq<SupersessionPair>, p: int) -> bool {
    &&& exists|q: int|
        0 <= q < ps.len() && #[trigger] ps[q].superseder@ == ps[p].superseded@ && ps[q].superseded@
            == ps[p].superseder@
    &&& str_le(ps[p].superseder@, ps[p].superseded@)
    &&& ps[p].superseder@ != ps[p].superseded@
}

/// The issues of the first `k` pairs, in order: for each pair, its cycle
/// and then its open superseded ADR.
pub open spec fn issues_upto(ps: Seq<SupersessionPair>, k: int) -> Seq<SupersessionIssue>
    decreases k,
{
    if k <= 0 {
        Seq::empty()
    } else {
        let p = k - 1;
        issues_upto(ps, p) + (if cycle_at(ps, p) {
            seq![SupersessionIssue::Cycle(p as usize)]
        } else {
            Seq::empty()
        }) + (if ps[p].open {
            seq![SupersessionIssue::StillOpen(p as usize)]
        } else {
            Seq::empty()
        })
    }
}

/// The supersession inconsistencies among `pairs` (`issues_upto` all of
/// them): cycles, reported once, and superseded ADRs still open.
pub fn supersession_issues(pairs: &Vec<SupersessionPair>) -> (r: Vec<SupersessionIssue>)
    ensures
        r@ == issues_upto(pairs@, pairs@.len() as int),
{
    let mut r: Vec<SupersessionIssue> = Vec::new();
    let mut k: usize = 0;
    while k < pairs.len()
        invariant
            k <= pairs@.len(),
            r@ == issues_upto(pairs@, k as int),
        decreases pairs.len() - k,
    {
        let mut reversed = false;
        let mut q: usize = 0;
        while q < pairs.len()
            invariant
                k < pairs@.len(),
                q <= pairs@.len(),
                reversed <==> exists|w: int|
                    0 <= w < q && #[trigger] pairs@[w].superseder@ == pairs@[k as int].superseded@
                        && pairs@[w].superseded@ == pairs@[k as int].superseder@,
            decreases pairs.len() - q,
        {
            if !reversed && crate::text::str_eq(pairs[q].superseder.as_str(), pairs[k].superseded.as_str())
                && crate::text::str_eq(pairs[q].superseded.as_str(), pairs[k].superseder.as_str()) {
                reversed = true;
            }
            q = q + 1;
        }
        if reversed && str_lt(pairs[k].superseder.as_str(), pairs[k].superseded.as_str()) {
            r.push(SupersessionIssue::Cycle(k));
        }
        if pairs[k].open {
            r.push(SupersessionIssue::StillOpen(k));
        }
        proof {
            assert(issues_upto(pairs@, k + 1) == issues_upto(pairs@, k as int) + (if cycle_at(pairs@, k as int) {
                seq![SupersessionIssue::Cycle(k)]
            } else {
                Seq::empty()
            }) + (if pairs@[k as int].open {
                seq![SupersessionIssue::StillOpen(k)]
            } else {
                Seq::empty()
            }));
        }
        k = k + 1;
    }
    r
}

/// The explanation of a supersession cycle between `a` and `b`.
pub fn cycle_explanation(a: &str, b: &str) -> (e: String)
    ensures
        e@ == a@ + " and "@ + b@ + " each claim to supersede the other — supersession cycle"@,
{
    let mut e = crate::text::string_of(&chars_of(a));
    crate::text::push_str(&mut e, " and ");
    crate::text::push_str(&mut e, b);
    crate::text::push_str(&mut e, " each claim to supersede the other — supersession cycle");
    e
}

/// The explanation of an ADR `superseded` by `superseder` that is still
/// open with `status`.
pub fn still_open_explanation(superseder: &str, superseded: &str, status: &str) -> (e: String)
    ensures
        e@ == superseded@ + " is superseded by "@ + superseder@ + " but is still open (status '"@ + status@
            + "'); re-run sync_adrs_from_git or retract it"@,
{
    let mut e = crate::text::string_of(&chars_of(superseded));
    crate::text::push_str(&mut e, " is superseded by ");
    crate::text::push_str(&mut e, superseder);
    crate::text::push_str(&mut e, " but is still open (status '");
    crate::text::push_str(&mut e, status);
    crate::text::push_str(&mut e, "'); re-run sync_adrs_from_git or retract it");
    e
}

/// The answer of a consistency check: the conflicts reported (after the
/// confidence floor) and how many of each kind were found, or, when none is
/// reported, how many decisions and constraints were checked.
pub fn conflict_answer(
    reported: usize,
    explicit: usize,
    contradictory: usize,
    supersession: usize,
    decisions: usize,
    constraints: usize,
) -> (a: String)
    ensures
        a@ == if reported == 0 {
            "No conflicts detected across "@ + crate::text::decimal(decisions as nat) + " decision(s) and "@
                + crate::text::decimal(constraints as nat) + " constraint(s)."@
        } else {
            crate::text::decimal(reported as nat) + " potential conflict(s): "@ + crate::text::decimal(
                explicit as nat,
            ) + " explicit edge(s), "@ + crate::text::decimal(contradictory as nat)
                + " contradictory constraint pair(s), "@ + crate::text::decimal(supersession as nat)
                + " supersession issue(s)."@
        },
{
    let mut a = String::new();
    if reported == 0 {
        crate::text::push_str(&mut a, "No conflicts detected across ");
        crate::text::push_decimal(&mut a, decisions as u64);
        crate::text::push_str(&mut a, " decision(s) and ");
        crate::text::push_decimal(&mut a, constraints as u64);
        crate::text::push_str(&mut a, " constraint(s).");
    } else {
        crate::text::push_decimal(&mut a, reported as u64);
        crate::text::push_str(&mut a, " potential conflict(s): ");
        crate::text::push_decimal(&mut a, explicit as u64);
        crate::text::push_str(&mut a, " explicit edge(s), ");
        crate::text::push_decimal(&mut a, contradictory as u64);
        crate::text::push_str(&mut a, " contradictory constraint pair(s), ");
        crate::text::push_decimal(&mut a, supersession as u64);
        crate::text::push_str(&mut a, " supersession issue(s).");
    }
    a
}

/// The warning when there are too many constraints for the pairwise check.
pub fn pairwise_skipped_warning(n: usize) -> (w: String)
    ensures
        w@ == "constraint set too large for pairwise contradiction check ("@ + crate::text::decimal(n as nat)
            + " > "@ + crate::text::decimal(MAX_PAIRWISE_CONSTRAINTS as nat) + "); skipped"@,
{
    let mut w = String::new();
    crate::text::push_str(&mut w, "constraint set too large for pairwise contradiction check (");
    crate::text::push_decimal(&mut w, n as u64);
    crate::text::push_str(&mut w, " > ");
    crate::text::push_decimal(&mut w, MAX_PAIRWISE_CONSTRAINTS as u64);
    crate::text::push_str(&mut w, "); skipped");
    w
}

/// How a decision is named in an explanation: its ADR id and quoted title
/// when the decision is known, else `decision` and its id.
pub fn decision_label(known: Option<(&str, &str)>, decision_id: &str) -> (l: String)
    ensures
        l@ == match known {
            Some((adr, title)) => adr@ + " '"@ + title@ + "'"@,
            None => "decision "@ + decision_id@,
        },
{
    let mut l = String::new();
    match known {
        Some((adr, title)) => {
            crate::text::push_str(&mut l, adr);
            crate::text::push_str(&mut l, " '");
            crate::text::push_str(&mut l, title);
            crate::text::push_str(&mut l, "'");
        },
        None => {
            crate::text::push_str(&mut l, "decision ");
            crate::text::push_str(&mut l, decision_id);
        },
    }
    l
}

/// The explanation of two contradictory constraints: each trimmed text with
/// the label of its decision, the shared terms, and the files both
/// decisions govern when there are any (terms and files as given, sorted by
/// the caller).
pub fn contradiction_explanation(
    text_a: &str,
    label_a: &str,
    text_b: &str,
    label_b: &str,
    terms: &Vec<String>,
    files: &Vec<String>,
) -> (e: String)
    ensures
        e@ == "Constraint '"@ + crate::text::trim_spec(text_a@) + "' ("@ + label_a@ + ") and constraint '"@
            + crate::text::trim_spec(text_b@) + "' ("@ + label_b@
            + ") make opposite-polarity claims over shared terms ["@ + crate::scan::join(
            crate::text::views(terms@),
            ", "@,
        ) + "]"@ + if files@.len() == 0 {
            Seq::<char>::empty()
        } else {
            "; both govern ["@ + crate::scan::join(crate::text::views(files@), ", "@) + "]"@
        },
{
    let mut e = String::new();
    crate::text::push_str(&mut e, "Constraint '");
    let ta = crate::text::trim(text_a);
    crate::text::push_str(&mut e, ta.as_str());
    crate::text::push_str(&mut e, "' (");
    crate::text::push_str(&mut e, label_a);
    crate::text::push_str(&mut e, ") and constraint '");
    let tb = crate::text::trim(text_b);
    crate::text::push_str(&mut e, tb.as_str());
    crate::text::push_str(&mut e, "' (");
    crate::text::push_str(&mut e, label_b);
    crate::text::push_str(&mut e, ") make opposite-polarity claims over shared terms [");
    crate::scan::push_joined(&mut e, terms, ", ");
    crate::text::push_str(&mut e, "]");
    if files.len() > 0 {
        crate::text::push_str(&mut e, "; both govern [");
        crate::scan::push_joined(&mut e, files, ", ");
        crate::text::push_str(&mut e, "]");
    }
    e
}

// ---------------------------------------------------------------------------
// Ranking the conflicts
// ---------------------------------------------------------------------------

/// Conflict `x` is listed before conflict `y`: a higher rank key, or the
/// same key and found earlier.
pub open spec fn listed_before(keys: Seq<u64>, x: int, y: int) -> bool {
    keys[x] > keys[y] || (keys[x] == keys[y] && x < y)
}

/// The order in which the conflicts are reported: the positions of those
/// kept (`keep`, the confidence floor the caller applied), by descending
/// rank key (the order of their confidences), ties in the order they were
/// found.
pub fn rank_conflicts(keys: &Vec<u64>, keep: &Vec<bool>) -> (r: Vec<usize>)
    requires
        keys@.len() == keep@.len(),
    ensures
        forall|k: int| 0 <= k < r@.len() ==> #[trigger] r@[k] < keys@.len() && keep@[r@[k] as int],
        forall|i: int| 0 <= i < keys@.len() && #[trigger] keep@[i] ==> r@.contains(i as usize),
        forall|a: int, b: int|
            0 <= a < b < r@.len() ==> listed_before(keys@, #[trigger] r@[a] as int, #[trigger] r@[b] as int),
{
    let mut out: Vec<usize> = Vec::new();
    let mut i: usize = 0;
    while i < keys.len()
        invariant
            i <= keys@.len(),
            keys@.len() == keep@.len(),
            forall|k: int| 0 <= k < out@.len() ==> #[trigger] out@[k] < i && keep@[out@[k] as int],
            forall|j: int| 0 <= j < i && #[trigger] keep@[j] ==> out@.contains(j as usize),
            forall|a: int, b: int|
                0 <= a < b < out@.len() ==> listed_before(keys@, #[trigger] out@[a] as int, #[trigger] out@[b] as int),
        decreases keys.len() - i,
    {
        if keep[i] {
            let mut p: usize = 0;
            while p < out.len() && keys[out[p]] >= keys[i]
                invariant
                    p <= out@.len(),
                    i < keys@.len(),
                    forall|k: int| 0 <= k < out@.len() ==> #[trigger] out@[k] < i,
                    forall|k: int| 0 <= k < p ==> keys@[#[trigger] out@[k] as int] >= keys@[i as int],
                decreases out.len() - p,
            {
                p = p + 1;
            }
            let ghost o0 = out@;
            out.insert(p, i);
            proof {
                assert(out@ == o0.insert(p as int, i));
                assert forall|k: int| 0 <= k < out@.len() implies #[trigger] out@[k] < i + 1 && keep@[out@[k] as int] by {
                    if k < p {
                        assert(out@[k] == o0[k]);
                    } else if k > p {
                        assert(out@[k] == o0[k - 1]);
                    }
                }
                assert forall|j: int| 0 <= j < i + 1 && #[trigger] keep@[j] implies out@.contains(j as usize) by {
                    if j < i {
                        let w = choose|w: int| 0 <= w < o0.len() && o0[w] == j as usize;
                        if w < p {
                            assert(out@[w] == o0[w]);
                        } else {
                            assert(out@[w + 1] == o0[w]);
                        }
                    } else {
                        assert(out@[p as int] == i);
                    }
                }
                assert forall|a: int, b: int|
                    0 <= a < b < out@.len() implies listed_before(keys@, #[trigger] out@[a] as int, #[trigger] out@[b] as int) by {
                    if b < p {
                        assert(out@[a] == o0[a] && out@[b] == o0[b]);
                    } else if b == p {
                        assert(out@[a] == o0[a] && out@[b] == i);
                    } else if a < p {
                        assert(out@[a] == o0[a] && out@[b] == o0[b - 1]);
                    } else if a == p {
                        assert(out@[a] == i && out@[b] == o0[b - 1]);
                        assert(keys@[o0[p as int] as int] < keys@[i as int]);
                        if p < b - 1 {
                            assert(listed_before(keys@, o0[p as int] as int, o0[b - 1] as int));
                        }
                    } else {
                        assert(out@[a] == o0[a - 1] && out@[b] == o0[b - 1]);
                    }
                }
            }
        }
        i = i + 1;
    }
    out
}

} // verus!
