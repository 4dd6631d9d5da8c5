//! Candidate links for a decision: the text a target ADR is matched by, the
//! terms of that text, how often they occur in a candidate, which symbols
//! and routes it points at, and how commit candidates are labelled. The confidence scores themselves are floating
//! point and are computed by the caller from these results.

use vstd::prelude::*;

use crate::text::{
    byte_len, chars_of, contains_seq, count_matches, str_lowercase, to_lowercase, views, words_longer, words_of,
};

verus! {

/// Request for link candidates.
#[derive(Debug)]
pub struct ProposeLinksParams {
    /// Absolute path to the repository root.
    pub repo_path: String,
    /// ADR ID (e.g. "ADR-0042") or decision UUID to generate candidates for.
    pub target: String,
    /// Maximum candidates to return per entity type. Default: 5.
    pub limit: Option<usize>,
}

/// The number of candidates per entity type when no limit is given.
pub fn default_candidate_limit(limit: Option<usize>) -> (n: usize)
    ensures
        n == match limit {
            Some(l) => l,
            None => 5,
        },
{
    match limit {
        Some(l) => l,
        None => 5,
    }
}

/// The terms of a text: its alphanumeric words of at least three bytes,
/// lowercased, in order (repeats kept).
pub open spec fn terms_spec(text: Seq<char>) -> Seq<Seq<char>> {
    words_longer(text, 2).map_values(|w: Seq<char>| str_lowercase(w))
}

/// The terms of `text` (`terms_spec`).
pub fn extract_terms(text: &str) -> (terms: Vec<String>)
    ensures
        terms@.len() == terms_spec(text@).len(),
        forall|i: int| 0 <= i < terms@.len() ==> #[trigger] terms@[i]@ == terms_spec(text@)[i],
{
    let cs = chars_of(text);
    let ws = words_of(&cs, 2);
    let mut terms: Vec<String> = Vec::new();
    let mut i: usize = 0;
    while i < ws.len()
        invariant
            i <= ws.len(),
            cs@ == text@,
            ws@.len() == words_longer(cs@, 2).len(),
            forall|k: int| 0 <= k < ws@.len() ==> #[trigger] ws@[k]@ == words_longer(cs@, 2)[k],
            terms@.len() == i,
            forall|k: int| 0 <= k < i ==> #[trigger] terms@[k]@ == terms_spec(text@)[k],
        decreases ws.len() - i,
    {
        terms.push(to_lowercase(ws[i].as_str()));
        i = i + 1;
    }
    terms
}

/// `str::matches(needle).count()`: non-overlapping occurrences; an empty
/// needle matches at every character boundary.
pub open spec fn match_count(hay: Seq<char>, needle: Seq<char>) -> nat {
    if needle.len() == 0 {
        hay.len() + 1
    } else {
        count_matches(hay, needle)
    }
}

/// The occurrences of all `terms` in `hay`, summed.
pub open spec fn total_matches(hay: Seq<char>, terms: Seq<Seq<char>>) -> nat
    decreases terms.len(),
{
    if terms.len() == 0 {
        0
    } else {
        total_matches(hay, terms.drop_last()) + match_count(hay, terms.last())
    }
}

proof fn lemma_total_matches_mono(hay: Seq<char>, terms: Seq<Seq<char>>, i: int)
    requires
        0 <= i <= terms.len(),
    ensures
        total_matches(hay, terms.take(i)) <= total_matches(hay, terms),
    decreases terms.len() - i,
{
    if i < terms.len() {
        lemma_total_matches_mono(hay, terms, i + 1);
        assert(terms.take(i + 1).drop_last() == terms.take(i));
    } else {
        assert(terms.take(i) == terms);
    }
}

/// How often the terms occur in `text`, lowercased.
pub fn term_frequency_str(text: &str, terms: &Vec<String>) -> (n: usize)
    requires
        total_matches(str_lowercase(text@), views(terms@)) <= usize::MAX,
    ensures
        n == total_matches(str_lowercase(text@), views(terms@)),
{
    match checked_term_frequency_str(text, terms) {
        Some(n) => n,
        None => {
            proof {
                assert(false);
            }
            0
        },
    }
}

/// How often the terms occur in a decision's title and text (joined by a
/// space), lowercased.
pub fn term_frequency(title: &str, text: &str, terms: &Vec<String>) -> (n: usize)
    requires
        total_matches(str_lowercase(title@ + " "@ + text@), views(terms@)) <= usize::MAX,
    ensures
        n == total_matches(str_lowercase(title@ + " "@ + text@), views(terms@)),
{
    let mut hay = crate::text::string_of(&chars_of(title));
    crate::text::push_str(&mut hay, " ");
    crate::text::push_str(&mut hay, text);
    term_frequency_str(hay.as_str(), terms)
}

/// How often the terms occur in an already lowercased text; `None` when the
/// count does not fit in `usize`. An empty term occurs at every position,
/// one more than the text has characters.
pub fn terms_in_lowered(hay_text: &str, terms: &Vec<String>) -> (r: Option<usize>)
    ensures
        total_matches(hay_text@, views(terms@)) <= usize::MAX <==> r is Some,
        r matches Some(n) ==> n == total_matches(hay_text@, views(terms@)),
{
    let hay = chars_of(hay_text);
    let ghost ts = views(terms@);
    let mut n: usize = 0;
    let mut i: usize = 0;
    while i < terms.len()
        invariant
            i <= terms.len(),
            hay@ == hay_text@,
            ts == views(terms@),
            n == total_matches(hay@, ts.take(i as int)),
        decreases terms.len() - i,
    {
        let needle = chars_of(terms[i].as_str());
        proof {
            assert(ts.take(i + 1).drop_last() == ts.take(i as int));
            assert(ts.take(i + 1).last() == needle@);
        }
        let c: usize = if needle.len() == 0 {
            if hay.len() == usize::MAX {
                proof {
                    lemma_total_matches_mono(hay@, ts, i + 1);
                }
                return None;
            }
            hay.len() + 1
        } else {
            crate::text::count_matches_chars(&hay, &needle)
        };
        match n.checked_add(c) {
            Some(m) => n = m,
            None => {
                proof {
                    lemma_total_matches_mono(hay@, ts, i + 1);
                }
                return None;
            },
        }
        i = i + 1;
    }
    proof {
        assert(ts.take(terms.len() as int) == ts);
    }
    Some(n)
}

/// How often the terms occur in `text`, lowercased; `None` when the count
/// does not fit in `usize`.
pub fn checked_term_frequency_str(text: &str, terms: &Vec<String>) -> (r: Option<usize>)
    ensures
        total_matches(str_lowercase(text@), views(terms@)) <= usize::MAX <==> r is Some,
        r matches Some(n) ==> n == total_matches(str_lowercase(text@), views(terms@)),
{
    let lower = to_lowercase(text);
    terms_in_lowered(lower.as_str(), terms)
}

/// How often the terms occur in a decision's title and text (joined by a
/// space), lowercased; `None` when the count does not fit in `usize`.
pub fn checked_term_frequency(title: &str, text: &str, terms: &Vec<String>) -> (r: Option<usize>)
    ensures
        total_matches(str_lowercase(title@ + " "@ + text@), views(terms@)) <= usize::MAX <==> r is Some,
        r matches Some(n) ==> n == total_matches(str_lowercase(title@ + " "@ + text@), views(terms@)),
{
    let mut hay = crate::text::string_of(&chars_of(title));
    crate::text::push_str(&mut hay, " ");
    crate::text::push_str(&mut hay, text);
    match checked_term_frequency_str(hay.as_str(), terms) {
        Some(_) => Some(term_frequency(title, text, terms)),
        None => None,
    }
}

/// Some term occurs in the lowercased `name`.
pub open spec fn name_matches(name: Seq<char>, terms: Seq<Seq<char>>) -> bool {
    term_in(str_lowercase(name), terms)
}

/// Some term occurs in the (lowercased) text `l`.
pub open spec fn term_in(l: Seq<char>, terms: Seq<Seq<char>>) -> bool {
    exists|i: int| 0 <= i < terms.len() && contains_seq(l, #[trigger] terms[i])
}

/// Whether the symbol name shares a term with the decision text; such
/// symbols get a bonus on top of the file-mention match.
pub fn name_matches_terms(name: &str, terms: &Vec<String>) -> (b: bool)
    ensures
        b == name_matches(name@, views(terms@)),
{
    let lower = to_lowercase(name);
    term_in_lowered(lower.as_str(), terms)
}

/// Whether some term occurs in the lowercased name `l`.
pub fn term_in_lowered(l: &str, terms: &Vec<String>) -> (b: bool)
    ensures
        b == term_in(l@, views(terms@)),
{
    let hay = chars_of(l);
    let ghost ts = views(terms@);
    let mut i: usize = 0;
    while i < terms.len()
        invariant
            i <= terms.len(),
            hay@ == l@,
            ts == views(terms@),
            forall|k: int| 0 <= k < i ==> !contains_seq(l@, #[trigger] ts[k]),
        decreases terms.len() - i,
    {
        let needle = chars_of(terms[i].as_str());
        proof {
            assert(ts[i as int] == needle@);
        }
        if crate::text::contains_chars(&hay, &needle) {
            return true;
        }
        i = i + 1;
    }
    false
}

/// The route path, or one of its segments longer than three bytes, occurs
/// in the decision text (both lowercased).
pub open spec fn route_mentioned(target_text: Seq<char>, path: Seq<char>) -> bool {
    route_in(str_lowercase(target_text), str_lowercase(path))
}

/// The (lowercased) route path `p`, or one of its segments longer than three
/// bytes, occurs in the (lowercased) text `t`.
pub open spec fn route_in(t: Seq<char>, p: Seq<char>) -> bool {
    contains_seq(t, p) || exists|i: int|
        0 <= i < crate::scan::split_on(p, '/').len() && byte_len(
            #[trigger] crate::scan::split_on(p, '/')[i],
        ) > 3 && contains_seq(t, crate::scan::split_on(p, '/')[i])
}

/// Whether the decision text refers to the route (`route_mentioned`).
pub fn route_text_match(target_text: &str, path: &str) -> (b: bool)
    ensures
        b == route_mentioned(target_text@, path@),
{
    let tl = to_lowercase(target_text);
    let pl = to_lowercase(path);
    route_in_lowered(tl.as_str(), pl.as_str())
}

/// Whether the lowercased route path `pl`, or one of its segments longer
/// than three bytes, occurs in the lowercased decision text `tl`.
pub fn route_in_lowered(tl: &str, pl: &str) -> (b: bool)
    ensures
        b == route_in(tl@, pl@),
{
    let t = chars_of(tl);
    let p = chars_of(pl);
    if crate::text::contains_chars(&t, &p) {
        return true;
    }
    let segs = crate::scan::split_on_char(&p, '/');
    let mut i: usize = 0;
    while i < segs.len()
        invariant
            i <= segs.len(),
            t@ == tl@,
            p@ == pl@,
            segs@.len() == crate::scan::split_on(p@, '/').len(),
            forall|k: int| 0 <= k < segs@.len() ==> #[trigger] segs@[k]@ == crate::scan::split_on(p@, '/')[k],
            forall|k: int|
                0 <= k < i ==> !(byte_len(#[trigger] crate::scan::split_on(p@, '/')[k]) > 3 && contains_seq(
                    t@,
                    crate::scan::split_on(p@, '/')[k],
                )),
        decreases segs.len() - i,
    {
        let seg = &segs[i];
        let long = crate::tools::verify_evidence::byte_len_of(seg) > 3;
        if long && crate::text::contains_chars(&t, seg) {
            proof {
                assert(segs@[i as int]@ == crate::scan::split_on(p@, '/')[i as int]);
            }
            return true;
        }
        i = i + 1;
    }
    proof {
        if route_in(tl@, pl@) {
            let k = choose|k: int|
                0 <= k < crate::scan::split_on(p@, '/').len() && byte_len(
                    #[trigger] crate::scan::split_on(p@, '/')[k],
                ) > 3 && contains_seq(t@, crate::scan::split_on(p@, '/')[k]);
            assert(!(byte_len(crate::scan::split_on(p@, '/')[k]) > 3 && contains_seq(
                t@,
                crate::scan::split_on(p@, '/')[k],
            )));
        }
    }
    false
}

/// The text a target ADR is matched by: its context, decision and
/// consequences, absent ones empty, separated by spaces.
pub open spec fn adr_body(context: Option<Seq<char>>, decision: Option<Seq<char>>, consequences: Option<Seq<char>>) -> Seq<char> {
    let part = |o: Option<Seq<char>>| match o {
        Some(t) => t,
        None => Seq::<char>::empty(),
    };
    part(context) + " "@ + part(decision) + " "@ + part(consequences)
}

/// The matching text of a target ADR (`adr_body`).
pub fn adr_target_body(context: &Option<String>, decision: &Option<String>, consequences: &Option<String>) -> (r: String)
    ensures
        r@ == adr_body(
            match *context { Some(t) => Some(t@), None => None },
            match *decision { Some(t) => Some(t@), None => None },
            match *consequences { Some(t) => Some(t@), None => None },
        ),
{
    let mut r = String::new();
    if let Some(t) = context {
        crate::text::push_str(&mut r, t.as_str());
    }
    crate::text::push_str(&mut r, " ");
    if let Some(t) = decision {
        crate::text::push_str(&mut r, t.as_str());
    }
    crate::text::push_str(&mut r, " ");
    if let Some(t) = consequences {
        crate::text::push_str(&mut r, t.as_str());
    }
    proof {
        assert(r@ =~= adr_body(
            match *context { Some(t) => Some(t@), None => None },
            match *decision { Some(t) => Some(t@), None => None },
            match *consequences { Some(t) => Some(t@), None => None },
        ));
    }
    r
}

/// The warning and the error reason when a target resolves to neither an
/// ADR id nor a decision UUID of the repository.
pub fn unresolved_target(target: &str) -> (r: (String, String))
    ensures
        r.0@ == "target '"@ + target@ + "' did not resolve to a known ADR ID or decision UUID in this repository"@,
        r.1@ == "'"@ + target@ + "' is not a known ADR ID or decision UUID"@,
{
    let mut w = String::new();
    crate::text::push_str(&mut w, "target '");
    crate::text::push_str(&mut w, target);
    crate::text::push_str(&mut w, "' did not resolve to a known ADR ID or decision UUID in this repository");
    let mut e = String::new();
    crate::text::push_str(&mut e, "'");
    crate::text::push_str(&mut e, target);
    crate::text::push_str(&mut e, "' is not a known ADR ID or decision UUID");
    (w, e)
}

// ---------------------------------------------------------------------------
// Commit candidates
// ---------------------------------------------------------------------------

/// The number of characters before the first `\n` of `s` (all of them when
/// there is none).
pub open spec fn line_end(s: Seq<char>) -> nat
    decreases s.len(),
{
    if s.len() == 0 || s[0] == '\n' {
        0
    } else {
        1 + line_end(s.drop_first())
    }
}

/// The first line of `s` as `str::lines` yields it: the text before the
/// first `\n`, without the `\r` of a `\r\n`; empty for empty `s`.
pub open spec fn first_line(s: Seq<char>) -> Seq<char> {
    let k = line_end(s) as int;
    if k < s.len() && k > 0 && s[k - 1] == '\r' {
        s.take(k - 1)
    } else {
        s.take(k)
    }
}

/// The label of a commit candidate: the first line of its message, cut to
/// 72 characters.
pub open spec fn short_message_spec(msg: Seq<char>) -> Seq<char> {
    let l = first_line(msg);
    if l.len() <= 72 {
        l
    } else {
        l.take(72)
    }
}

/// The first line of a commit message, cut to 72 characters
/// (`short_message_spec`).
pub fn short_message(msg: &str) -> (r: String)
    ensures
        r@ == short_message_spec(msg@),
{
    let cs = chars_of(msg);
    let mut k: usize = 0;
    proof {
        assert(cs@.skip(0) == cs@);
    }
    while k < cs.len() && cs[k] != '\n'
        invariant
            cs@ == msg@,
            k <= cs.len(),
            line_end(cs@) == k + line_end(cs@.skip(k as int)),
        decreases cs.len() - k,
    {
        proof {
            let t = cs@.skip(k as int);
            assert(t[0] == cs@[k as int]);
            assert(t.drop_first() == cs@.skip(k + 1));
        }
        k = k + 1;
    }
    proof {
        let t = cs@.skip(k as int);
        if k < cs.len() {
            assert(t[0] == cs@[k as int]);
        }
        assert(line_end(t) == 0);
    }
    let mut end = k;
    if k < cs.len() && k > 0 && cs[k - 1] == '\r' {
        end = k - 1;
    }
    if end > 72 {
        end = 72;
    }
    let head = crate::scan::slice_chars(&cs, 0, end);
    proof {
        assert(head@ == msg@.take(end as int));
        assert(first_line(msg@).take(end as int) == msg@.take(end as int));
    }
    crate::text::string_of(&head)
}

/// The title of a commit candidate: its label and, in brackets, the first
/// eight bytes of its sha (all of a shorter one).
pub fn commit_candidate_title(short: &str, sha: &str) -> (r: String)
    requires
        byte_len(sha@) > 8 ==> crate::tools::ingest_symbols::chars_in_bytes(sha@, 8) is Some,
    ensures
        r@ == short@ + " ("@ + crate::tools::trace_symbol_history::byte_prefix_spec(sha@, 8) + ")"@,
{
    let mut r = crate::text::string_of(&chars_of(short));
    crate::text::push_str(&mut r, " (");
    let p = crate::tools::trace_symbol_history::byte_prefix(sha, 8);
    crate::text::push_str(&mut r, p.as_str());
    crate::text::push_str(&mut r, ")");
    r
}

/// The reason given for a candidate that embedding similarity raises:
/// `combined` when its earlier reason mentions a keyword match, else
/// `embedding similarity`.
pub fn similarity_reason(earlier: &str, combined: &str) -> (r: String)
    ensures
        r@ == if contains_seq(earlier@, "keyword"@) {
            combined@
        } else {
            "embedding similarity"@
        },
{
    if crate::text::str_contains(earlier, "keyword") {
        crate::text::string_of(&chars_of(combined))
    } else {
        String::from_str("embedding similarity")
    }
}

} // verus!
