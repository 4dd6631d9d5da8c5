//! Verifying a content-hashed evidence anchor against the working tree: how
//! the anchored span compares with what is there now, and where it went.
//!
//! Hashing, whitespace normalisation and token overlap are computed by the
//! anchor code elsewhere; the classification here takes their results.

use vstd::prelude::*;

use crate::scan::{join, lines, split_lines};
use crate::text::{byte_len, contains_seq};
use crate::text::{chars_of, copy_string};
use crate::tools::freshness::{
    AnchorSource, AnchorVerification, EditClass, EvidenceAnchor, Freshness, HeadRef, Locator,
};

verus! {

/// How an anchor compares with the current text, and where it now sits.
#[derive(Debug)]
pub struct SpanVerdict {
    pub edit_class: EditClass,
    pub freshness: Freshness,
    pub relocated: Option<Locator>,
    /// The explanation; absent where it quotes the token overlap, which the
    /// caller formats.
    pub detail: Option<String>,
}

/// Two locators name the same place.
pub open spec fn same_locator(a: Locator, b: Locator) -> bool {
    match (a, b) {
        (Locator::Section { name: x }, Locator::Section { name: y }) => x@ == y@,
        (Locator::Lines { start: s1, end: e1 }, Locator::Lines { start: s2, end: e2 }) => s1 == s2
            && e1 == e2,
        (Locator::Chars { start: s1, end: e1 }, Locator::Chars { start: s2, end: e2 }) => s1 == s2
            && e1 == e2,
        (Locator::SymbolQn { qn: x }, Locator::SymbolQn { qn: y }) => x@ == y@,
        _ => false,
    }
}

/// Whether two locators name the same place.
pub fn locators_equal(a: &Locator, b: &Locator) -> (r: bool)
    ensures
        r == same_locator(*a, *b),
{
    match (a, b) {
        (Locator::Section { name: x }, Locator::Section { name: y }) => crate::text::str_eq(
            x.as_str(),
            y.as_str(),
        ),
        (Locator::Lines { start: s1, end: e1 }, Locator::Lines { start: s2, end: e2 }) => *s1 == *s2
            && *e1 == *e2,
        (Locator::Chars { start: s1, end: e1 }, Locator::Chars { start: s2, end: e2 }) => *s1 == *s2
            && *e1 == *e2,
        (Locator::SymbolQn { qn: x }, Locator::SymbolQn { qn: y }) => crate::text::str_eq(
            x.as_str(),
            y.as_str(),
        ),
        _ => false,
    }
}

/// The classification of an anchored span against the current span:
/// identical content is fresh (shifted when the span now sits elsewhere);
/// content found inside the current span after whitespace normalisation is
/// fresh and shifted; otherwise the anchor is stale, `affected` when the
/// token overlap reaches the fuzzy threshold and `deleted` when not.
pub open spec fn classify_spec(
    same_hash: bool,
    norm_contains: bool,
    fuzzy: bool,
    orig: Locator,
    current: Option<Locator>,
) -> (EditClass, Freshness, Option<Locator>) {
    if same_hash {
        match current {
            Some(loc) => if !same_locator(loc, orig) {
                (EditClass::Shifted, Freshness::Fresh, Some(loc))
            } else {
                (EditClass::Unchanged, Freshness::Fresh, None)
            },
            None => (EditClass::Unchanged, Freshness::Fresh, None),
        }
    } else if norm_contains {
        (EditClass::Shifted, Freshness::Fresh, current)
    } else if fuzzy {
        (EditClass::Affected, Freshness::Stale, current)
    } else {
        (EditClass::Deleted, Freshness::Stale, None)
    }
}

/// The explanation of a classification: what matched, or nothing for a
/// stale anchor (whose explanation quotes the token overlap, which the
/// caller formats).
pub open spec fn classify_detail(same_hash: bool, norm_contains: bool, orig: Locator, current: Option<Locator>) -> Option<
    Seq<char>,
> {
    if same_hash {
        match current {
            Some(loc) => if !same_locator(loc, orig) {
                Some("span moved, content identical"@)
            } else {
                Some("exact match"@)
            },
            None => Some("exact match"@),
        }
    } else if norm_contains {
        Some("relocated within span by content"@)
    } else {
        None
    }
}

/// Classifies an anchored span: `anchored_hash` and `span_hash` are the
/// content hashes of the anchored and the current text, `anchored_norm` and
/// `span_norm` the two texts with whitespace normalised, and `fuzzy` says
/// whether their token overlap reaches the fuzzy threshold.
pub fn classify_text(
    anchored_hash: &str,
    span_hash: &str,
    anchored_norm: &str,
    span_norm: &str,
    fuzzy: bool,
    orig_locator: &Locator,
    current_locator: Option<Locator>,
) -> (v: SpanVerdict)
    ensures
        (v.edit_class, v.freshness, v.relocated) == classify_spec(
            anchored_hash@ == span_hash@,
            contains_seq(span_norm@, anchored_norm@),
            fuzzy,
            *orig_locator,
            current_locator,
        ),
        crate::tools::freshness::opt_text(v.detail) == classify_detail(
            anchored_hash@ == span_hash@,
            contains_seq(span_norm@, anchored_norm@),
            *orig_locator,
            current_locator,
        ),
{
    if crate::text::str_eq(anchored_hash, span_hash) {
        return match current_locator {
            Some(loc) => if !locators_equal(&loc, orig_locator) {
                SpanVerdict {
                    edit_class: EditClass::Shifted,
                    freshness: Freshness::Fresh,
                    relocated: Some(loc),
                    detail: Some(String::from_str("span moved, content identical")),
                }
            } else {
                SpanVerdict {
                    edit_class: EditClass::Unchanged,
                    freshness: Freshness::Fresh,
                    relocated: None,
                    detail: Some(String::from_str("exact match")),
                }
            },
            None => SpanVerdict {
                edit_class: EditClass::Unchanged,
                freshness: Freshness::Fresh,
                relocated: None,
                detail: Some(String::from_str("exact match")),
            },
        };
    }
    if crate::text::str_contains(span_norm, anchored_norm) {
        return SpanVerdict {
            edit_class: EditClass::Shifted,
            freshness: Freshness::Fresh,
            relocated: current_locator,
            detail: Some(String::from_str("relocated within span by content")),
        };
    }
    if fuzzy {
        SpanVerdict {
            edit_class: EditClass::Affected,
            freshness: Freshness::Stale,
            relocated: current_locator,
            detail: None,
        }
    } else {
        SpanVerdict { edit_class: EditClass::Deleted, freshness: Freshness::Stale, relocated: None, detail: None }
    }
}

/// A verdict for a source that cannot be found: deleted and stale.
pub fn missing(detail: &str) -> (v: SpanVerdict)
    ensures
        v.edit_class == EditClass::Deleted,
        v.freshness == Freshness::Stale,
        v.relocated is None,
        v.detail matches Some(d) && d@ == detail@,
{
    SpanVerdict {
        edit_class: EditClass::Deleted,
        freshness: Freshness::Stale,
        relocated: None,
        detail: Some(crate::text::string_of(&crate::text::chars_of(detail))),
    }
}

/// The verdict for an immutable source (an episode or a pull request): it
/// cannot drift.
pub fn immutable_verdict() -> (v: SpanVerdict)
    ensures
        v.edit_class == EditClass::Unchanged,
        v.freshness == Freshness::Fresh,
        v.relocated is None,
        v.detail matches Some(d) && d@ == "immutable source"@,
{
    SpanVerdict {
        edit_class: EditClass::Unchanged,
        freshness: Freshness::Fresh,
        relocated: None,
        detail: Some(String::from_str("immutable source")),
    }
}

/// The verdict for a cited commit: fresh while it is in the history of
/// `HEAD`, deleted otherwise.
pub fn commit_verdict(in_history: bool, sha: &str) -> (v: SpanVerdict)
    ensures
        in_history ==> v.edit_class == EditClass::Unchanged && v.freshness == Freshness::Fresh,
        !in_history ==> v.edit_class == EditClass::Deleted && v.freshness == Freshness::Stale,
        v.relocated is None,
        in_history ==> (v.detail matches Some(d) && d@ == "commit in history"@),
        !in_history ==> (v.detail matches Some(d) && d@ == "commit "@ + sha@
            + " not in history of HEAD"@),
{
    if in_history {
        SpanVerdict {
            edit_class: EditClass::Unchanged,
            freshness: Freshness::Fresh,
            relocated: None,
            detail: Some(String::from_str("commit in history")),
        }
    } else {
        let mut d = String::from_str("commit ");
        crate::text::push_str(&mut d, sha);
        crate::text::push_str(&mut d, " not in history of HEAD");
        SpanVerdict {
            edit_class: EditClass::Deleted,
            freshness: Freshness::Stale,
            relocated: None,
            detail: Some(d),
        }
    }
}

/// How an anchor is checked, by the kind of source it cites.
#[derive(Debug, Clone, Copy, PartialEq, Eq, Structural)]
pub enum AnchorCheck {
    /// Episodes and pull requests cannot drift.
    Immutable,
    /// The commit must still be in the history of `HEAD`.
    Commit,
    /// The cited ADR section is compared with the file.
    Adr,
    /// The cited span is compared with the source file.
    Code,
}

/// Which check verification runs for an anchor citing a source of this
/// kind.
pub fn anchor_check(kind: AnchorSource) -> (c: AnchorCheck)
    ensures
        c == match kind {
            AnchorSource::Episode | AnchorSource::Pr => AnchorCheck::Immutable,
            AnchorSource::Commit => AnchorCheck::Commit,
            AnchorSource::Adr => AnchorCheck::Adr,
            AnchorSource::SourceFile | AnchorSource::Symbol => AnchorCheck::Code,
        },
{
    match kind {
        AnchorSource::Episode | AnchorSource::Pr => AnchorCheck::Immutable,
        AnchorSource::Commit => AnchorCheck::Commit,
        AnchorSource::Adr => AnchorCheck::Adr,
        AnchorSource::SourceFile | AnchorSource::Symbol => AnchorCheck::Code,
    }
}

/// The verification of an anchor from the verdict of its check, taken at
/// `head` at time `now`: a fresh anchor is observed with its own content
/// hash, a stale one with none.
pub fn verification_of(v: SpanVerdict, anchor: &EvidenceAnchor, head: &HeadRef, now: &str) -> (r:
    AnchorVerification)
    ensures
        r.anchor_id@ == anchor.id@,
        r.checked_at@ == now@,
        r.repo_ref@ == head.repo_ref@,
        r.repo_commit@ == head.repo_commit@,
        r.edit_class == v.edit_class,
        r.freshness == v.freshness,
        crate::tools::freshness::opt_text(r.observed_hash) == (if v.freshness == Freshness::Fresh {
            Some(anchor.content_hash@)
        } else {
            None::<Seq<char>>
        }),
        r.relocated_locator == v.relocated,
        r.detail == v.detail,
{
    let observed_hash = match v.freshness {
        Freshness::Fresh => Some(copy_string(&anchor.content_hash)),
        Freshness::Stale => None,
    };
    AnchorVerification {
        anchor_id: copy_string(&anchor.id),
        checked_at: crate::text::string_of(&chars_of(now)),
        repo_ref: copy_string(&head.repo_ref),
        repo_commit: copy_string(&head.repo_commit),
        edit_class: v.edit_class,
        freshness: v.freshness,
        observed_hash,
        relocated_locator: v.relocated,
        detail: v.detail,
    }
}


/// The text of the cited section of a parsed ADR: `Decision`,
/// `Consequences` and `Context` are read; any other name cites nothing.
pub fn adr_section_text(
    section: &str,
    context: Option<String>,
    decision: Option<String>,
    consequences: Option<String>,
) -> (r: Option<String>)
    ensures
        r == (if section@ == "Decision"@ {
            decision
        } else if section@ == "Consequences"@ {
            consequences
        } else if section@ == "Context"@ {
            context
        } else {
            None
        }),
{
    if crate::text::str_eq(section, "Decision") {
        decision
    } else if crate::text::str_eq(section, "Consequences") {
        consequences
    } else if crate::text::str_eq(section, "Context") {
        context
    } else {
        None
    }
}

/// The explanation when the cited ADR section is gone.
pub fn section_gone_detail(section: &str) -> (d: String)
    ensures
        d@ == "ADR section '"@ + section@ + "' no longer present"@,
{
    let mut d = String::new();
    crate::text::push_str(&mut d, "ADR section '");
    crate::text::push_str(&mut d, section);
    crate::text::push_str(&mut d, "' no longer present");
    d
}

/// A `::` starts at position `i` of `s`.
pub open spec fn sep_at(s: Seq<char>, i: int) -> bool {
    0 <= i && i + 1 < s.len() && s[i] == ':' && s[i + 1] == ':'
}

/// The start of the last `::` that begins before position `k`.
pub open spec fn last_sep_before(s: Seq<char>, k: int) -> Option<int>
    decreases k,
{
    if k <= 0 {
        None
    } else if sep_at(s, k - 1) {
        Some(k - 1)
    } else {
        last_sep_before(s, k - 1)
    }
}

/// The bare name of a qualified symbol name: what follows its last `::`, or
/// all of it when it has none.
pub open spec fn bare_symbol_spec(qn: Seq<char>) -> Seq<char> {
    match last_sep_before(qn, qn.len() as int) {
        Some(i) => qn.skip(i + 2),
        None => qn,
    }
}

/// The bare name of a qualified symbol name (`rsplit("::").next()`).
pub fn bare_symbol(qn: &str) -> (r: String)
    ensures
        r@ == bare_symbol_spec(qn@),
{
    let cs = chars_of(qn);
    let mut last: Option<usize> = None;
    let mut k: usize = 0;
    while k < cs.len()
        invariant
            k <= cs.len(),
            cs@ == qn@,
            match last {
                Some(i) => last_sep_before(qn@, k as int) == Some(i as int),
                None => last_sep_before(qn@, k as int) is None,
            },
            last matches Some(i) ==> i + 2 <= cs.len(),
        decreases cs.len() - k,
    {
        if k + 1 < cs.len() && cs[k] == ':' && cs[k + 1] == ':' {
            last = Some(k);
        }
        k = k + 1;
    }
    match last {
        Some(i) => {
            let tail = crate::scan::slice_chars(&cs, i + 2, cs.len());
            proof {
                assert(tail@ == qn@.skip(i + 2));
            }
            crate::text::string_of(&tail)
        },
        None => crate::text::string_of(&cs),
    }
}

/// Where the cited code now is: a symbol anchor follows the
/// span the index resolved for its bare name, if any; a line anchor keeps its
/// lines; otherwise the whole cited file is searched.
pub fn code_target(locator: &Locator, source_uri: &String, resolved: Option<(String, u32, u32)>) -> (r: (
    String,
    Option<(u32, u32)>,
))
    ensures
        match *locator {
            Locator::SymbolQn { .. } => match resolved {
                Some((f, s, e)) => r.0@ == f@ && r.1 == Some((s, e)),
                None => r.0@ == source_uri@ && r.1 is None,
            },
            Locator::Lines { start, end } => r.0@ == source_uri@ && r.1 == Some((start, end)),
            _ => r.0@ == source_uri@ && r.1 is None,
        },
{
    match locator {
        Locator::SymbolQn { .. } => match resolved {
            Some((f, s, e)) => (f, Some((s, e))),
            None => (copy_string(source_uri), None),
        },
        Locator::Lines { start, end } => (copy_string(source_uri), Some((*start, *end))),
        _ => (copy_string(source_uri), None),
    }
}

// ---------------------------------------------------------------------------
// Lines
// ---------------------------------------------------------------------------

/// Lines `start..=end` (1-based) of `text`, joined with newlines; none when
/// the range is empty, starts at 0 or runs past the end.
pub open spec fn slice_lines_spec(text: Seq<char>, start: int, end: int) -> Option<Seq<char>> {
    let ls = lines(text);
    if start == 0 || end > ls.len() || start > end {
        None
    } else {
        Some(join(ls.subrange(start - 1, end), seq!['\n']))
    }
}

/// The lines `lo..hi` of `all` (held in `ls`) joined with newlines.
pub(crate) fn join_line_range(ls: &Vec<Vec<char>>, lo: usize, hi: usize, Ghost(all): Ghost<Seq<Seq<char>>>) -> (out:
    Vec<char>)
    requires
        lo <= hi <= ls@.len(),
        ls@.len() == all.len(),
        forall|j: int| 0 <= j < ls@.len() ==> #[trigger] ls@[j]@ == all[j],
    ensures
        out@ == join(all.subrange(lo as int, hi as int), seq!['\n']),
{
    let ghost parts = all.subrange(lo as int, hi as int);
    let mut out: Vec<char> = Vec::new();
    let mut k: usize = lo;
    while k < hi
        invariant
            lo <= k <= hi <= ls@.len(),
            ls@.len() == all.len(),
            forall|j: int| 0 <= j < ls@.len() ==> #[trigger] ls@[j]@ == all[j],
            parts == all.subrange(lo as int, hi as int),
            out@ == join(parts.take(k - lo), seq!['\n']),
        decreases hi - k,
    {
        if k > lo {
            out.push('\n');
        }
        let mut piece = crate::scan::slice_chars(&ls[k], 0, ls[k].len());
        out.append(&mut piece);
        proof {
            let t = parts.take(k + 1 - lo);
            assert(t.drop_last() == parts.take(k - lo));
            assert(t.last() == ls@[k as int]@);
            if k == lo {
                assert(parts.take(0) == Seq::<Seq<char>>::empty());
            }
        }
        k = k + 1;
    }
    proof {
        assert(parts.take(hi - lo) == parts);
    }
    out
}

/// The 1-based inclusive line range `start..=end` of `text`.
pub fn slice_lines(text: &str, start: u32, end: u32) -> (r: Option<String>)
    ensures
        crate::tools::json_utils::opt_chars(r) == slice_lines_spec(text@, start as int, end as int),
{
    let cs = crate::text::chars_of(text);
    let ls = split_lines(&cs);
    if start == 0 || end as usize > ls.len() || start > end {
        return None;
    }
    let out = join_line_range(&ls, (start - 1) as usize, end as usize, Ghost(lines(text@)));
    Some(crate::text::string_of(&out))
}

/// The text of a symbol's span `start..=end` (1-based lines) in `src`, as
/// far as the text reaches: the lines from `start` (the first when it is 0)
/// on, `end - start + 1` of them (one when `end < start`), joined with
/// newlines.
pub open spec fn span_text_spec(src: Seq<char>, start: u32, end: u32) -> Seq<char> {
    let ls = lines(src);
    let skip: int = if start >= 1 { start - 1 } else { 0 };
    let take: int = (if end >= start { end - start } else { 0 }) + 1;
    let lo = if skip <= ls.len() { skip } else { ls.len() as int };
    let hi = if lo + take <= ls.len() { lo + take } else { ls.len() as int };
    join(ls.subrange(lo, hi), seq!['\n'])
}

/// The text of a symbol's span (`span_text_spec`); the line count must fit
/// in `u32`.
pub fn span_text(src: &str, start: u32, end: u32) -> (r: String)
    requires
        !(end >= start && end - start == u32::MAX),
    ensures
        r@ == span_text_spec(src@, start, end),
{
    let cs = crate::text::chars_of(src);
    let ls = split_lines(&cs);
    let skip: u32 = if start >= 1 { start - 1 } else { 0 };
    let take: u32 = (if end >= start { end - start } else { 0 }) + 1;
    let lo: usize = if (skip as usize) <= ls.len() { skip as usize } else { ls.len() };
    let hi: usize = if (take as usize) <= ls.len() - lo { lo + take as usize } else { ls.len() };
    let out = join_line_range(&ls, lo, hi, Ghost(lines(src@)));
    crate::text::string_of(&out)
}

/// The text accumulated over lines `start..=start + off`: each line appended
/// after a space, except while nothing has been accumulated yet.
pub open spec fn window(ls: Seq<Seq<char>>, start: int, off: int) -> Seq<char>
    decreases off + 1,
{
    if off < 0 {
        Seq::empty()
    } else {
        let acc = window(ls, start, off - 1);
        (if acc.len() == 0 {
            acc
        } else {
            acc.push(' ')
        }) + ls[start + off]
    }
}

/// The offset, from `off` on, at which the window starting at line `start`
/// first contains `needle`; the search gives up after 80 lines, at the end
/// of the text, or once the window is 512 bytes longer than the needle.
pub open spec fn scan_window(ls: Seq<Seq<char>>, needle: Seq<char>, start: int, off: int) -> Option<int>
    decreases 80 - off,
{
    if off < 0 || off >= 80 || start + off >= ls.len() {
        None
    } else {
        let acc = window(ls, start, off);
        if contains_seq(acc, needle) {
            Some(off)
        } else if byte_len(acc) > byte_len(needle) + 512 {
            None
        } else {
            scan_window(ls, needle, start, off + 1)
        }
    }
}

/// The first start line, from `start` on, whose window contains `needle`,
/// with the 1-based range of lines it took.
pub open spec fn span_from(ls: Seq<Seq<char>>, needle: Seq<char>, start: int) -> Option<(int, int)>
    decreases ls.len() - start,
{
    if start < 0 || start >= ls.len() {
        None
    } else {
        match scan_window(ls, needle, start, 0) {
            Some(off) => Some((start + 1, start + off + 1)),
            None => span_from(ls, needle, start + 1),
        }
    }
}

/// The smallest range of lines, by first line and then length, whose
/// normalised text contains the normalised needle; none for an empty needle.
pub open spec fn find_span_spec(norm_lines: Seq<Seq<char>>, needle: Seq<char>) -> Option<(int, int)> {
    if needle.len() == 0 {
        None
    } else {
        span_from(norm_lines, needle, 0)
    }
}

/// The UTF-8 length of `s`.
pub fn byte_len_of(s: &[char]) -> (n: u128)
    ensures
        n == byte_len(s@),
        n <= 4 * s.len(),
{
    let mut n: u128 = 0;
    let mut i: usize = 0;
    while i < s.len()
        invariant
            i <= s.len(),
            n == byte_len(s@.take(i as int)),
            n <= 4 * i,
        decreases s.len() - i,
    {
        proof {
            assert(s@.take(i + 1).drop_last() == s@.take(i as int));
        }
        n = n + crate::text::char_width(s[i]) as u128;
        i = i + 1;
    }
    proof {
        assert(s@.take(s.len() as int) == s@);
    }
    n
}

/// Locates `needle_norm` across the file: `norm_lines` holds the file's
/// lines, each with whitespace normalised. Returns the 1-based inclusive line
/// range of the first (and, from there, shortest) window that contains it.
pub fn find_span_lines(norm_lines: &Vec<String>, needle_norm: &str) -> (r: Option<(u32, u32)>)
    requires
        norm_lines@.len() < u32::MAX,
    ensures
        match r {
            Some((s, e)) => find_span_spec(
                crate::text::views(norm_lines@),
                needle_norm@,
            ) == Some((s as int, e as int)),
            None => find_span_spec(crate::text::views(norm_lines@), needle_norm@)
                is None,
        },
{
    let ghost ls = crate::text::views(norm_lines@);
    let needle = crate::text::chars_of(needle_norm);
    if needle.len() == 0 {
        return None;
    }
    let needle_bytes = byte_len_of(&needle);
    let n = norm_lines.len();
    let mut start: usize = 0;
    while start < n
        invariant
            n == norm_lines@.len(),
            n < u32::MAX,
            ls == crate::text::views(norm_lines@),
            ls.len() == n,
            needle@ == needle_norm@,
            needle@.len() > 0,
            needle_bytes == byte_len(needle@),
            needle_bytes <= 4 * needle@.len(),
            start <= n,
            span_from(ls, needle@, 0) == span_from(ls, needle@, start as int),
        decreases n - start,
    {
        let mut acc: Vec<char> = Vec::new();
        let mut acc_bytes: u128 = 0;
        let mut off: usize = 0;
        let mut found: Option<usize> = None;
        let mut stop = false;
        while found.is_none() && !stop && off < 80 && off < n - start
            invariant
                n == norm_lines@.len(),
                n < u32::MAX,
                ls == crate::text::views(norm_lines@),
                ls.len() == n,
                start < n,
                off <= 80,
                needle@.len() > 0,
                needle_bytes == byte_len(needle@),
                needle_bytes <= 4 * needle@.len(),
                found matches Some(o) ==> scan_window(ls, needle@, start as int, 0) == Some(o as int)
                    && o < 80 && start + o < n,
                found is None && !stop ==> acc@ == window(ls, start as int, off - 1),
                found is None && !stop ==> acc_bytes == byte_len(acc@),
                found is None && !stop ==> acc_bytes <= 4 * acc@.len(),
                found is None && !stop ==> scan_window(ls, needle@, start as int, 0) == scan_window(
                    ls,
                    needle@,
                    start as int,
                    off as int,
                ),
                stop ==> found is None && scan_window(ls, needle@, start as int, 0) is None,
            decreases 80 - off + (if found is None && !stop { 1int } else { 0int }),
        {
            let line = crate::text::chars_of(norm_lines[start + off].as_str());
            proof {
                assert(ls[start + off] == norm_lines@[start + off]@);
            }
            if acc.len() > 0 {
                acc.push(' ');
                acc_bytes = acc_bytes + 1;
            }
            let lb = byte_len_of(&line);
            let mut piece = line;
            acc.append(&mut piece);
            acc_bytes = acc_bytes + lb;
            proof {
                let w = window(ls, start as int, off - 1);
                let pre = if w.len() == 0 { w } else { w.push(' ') };
                assert(seq![' '].drop_last() =~= Seq::<char>::empty());
                assert(byte_len(Seq::<char>::empty()) == 0);
                assert(byte_len(seq![' ']) == byte_len(Seq::<char>::empty()) + crate::text::utf8_width(' '));
                if w.len() > 0 {
                    crate::text::lemma_byte_len_append(w, seq![' ']);
                    assert(w.push(' ') == w + seq![' ']);
                }
                crate::text::lemma_byte_len_append(pre, ls[start + off]);
                assert(acc_bytes == byte_len(pre + ls[start + off]));
                assert(acc@ == window(ls, start as int, off as int));
            }
            proof {
                assert(needle@.len() == needle.len());
                assert(needle_bytes <= 4 * usize::MAX);
            }
            if crate::text::contains_chars(&acc, &needle) {
                found = Some(off);
            } else if acc_bytes > needle_bytes + 512 {
                stop = true;
            } else {
                off = off + 1;
            }
        }
        match found {
            Some(off) => {
                return Some(((start as u32) + 1, ((start + off) as u32) + 1));
            },
            None => {},
        }
        proof {
            assert(scan_window(ls, needle@, start as int, 0) is None);
        }
        start = start + 1;
    }
    None
}

/// The verdict once more after a relocation pass over the whole file: a
/// fresh verdict stands; a stale one becomes a shifted, fresh one at the
/// lines where the normalised anchored text is found, if it is found.
pub fn or_else_search(v: SpanVerdict, norm_lines: &Vec<String>, needle_norm: &str) -> (r: SpanVerdict)
    requires
        norm_lines@.len() < u32::MAX,
    ensures
        v.freshness == Freshness::Fresh ==> r == v,
        v.freshness == Freshness::Stale ==> match find_span_spec(
            crate::text::views(norm_lines@),
            needle_norm@,
        ) {
            Some((s, e)) => r.edit_class == EditClass::Shifted && r.freshness == Freshness::Fresh
                && r.relocated == Some(Locator::Lines { start: s as u32, end: e as u32 })
                && crate::tools::freshness::opt_text(r.detail) == Some("relocated across file by content"@),
            None => r == v,
        },
{
    if v.freshness == Freshness::Fresh {
        return v;
    }
    match find_span_lines(norm_lines, needle_norm) {
        Some((s, e)) => SpanVerdict {
            edit_class: EditClass::Shifted,
            freshness: Freshness::Fresh,
            relocated: Some(Locator::Lines { start: s, end: e }),
            detail: Some(String::from_str("relocated across file by content")),
        },
        None => v,
    }
}

} // verus!
