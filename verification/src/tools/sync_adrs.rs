//! Syncing ADRs from a repository: checks on the glob, the `.archignore`
//! rules, the effective date of an ADR, and the capped warning list.

use vstd::prelude::*;

use crate::dates::{timestamp_from_text, timestamp_of};
use crate::scan::{lines, split_lines, starts_with};
use crate::text::{contains_seq, trim_spec, views};

verus! {

/// Request to sync the ADRs matched by a glob.
#[derive(Debug)]
pub struct SyncAdrsFromGitParams {
    /// Absolute path to the git repository root.
    pub repo_path: String,
    /// Glob pattern for ADR files relative to the repository root.
    pub adr_glob: String,
}

/// What a sync did.
#[derive(Debug)]
pub struct SyncAdrsResult {
    pub synced: usize,
    pub unchanged: usize,
    pub closed: usize,
    /// The first `MAX_WARNINGS` warnings; `warnings_total` counts them all.
    pub warnings: Vec<String>,
    /// Total number of warnings generated (including those left out of the list).
    pub warnings_total: usize,
}

/// The most warnings a result lists.
pub const MAX_WARNINGS: usize = 20;

/// Why an ADR glob is refused.
#[derive(Debug, Clone, Copy, PartialEq, Eq, Structural)]
pub enum GlobError {
    /// The glob is empty.
    Empty,
    /// The glob contains `..`.
    Traversal,
}

/// Checks an ADR glob: it must not be empty and must not contain `..`.
pub fn check_adr_glob(glob: &str) -> (r: Result<(), GlobError>)
    ensures
        glob@.len() == 0 ==> r == Err::<(), GlobError>(GlobError::Empty),
        glob@.len() > 0 && contains_seq(glob@, ".."@) ==> r == Err::<(), GlobError>(GlobError::Traversal),
        glob@.len() > 0 && !contains_seq(glob@, ".."@) ==> r is Ok,
{
    if crate::text::chars_of(glob).len() == 0 {
        return Err(GlobError::Empty);
    }
    if crate::text::str_contains(glob, "..") {
        return Err(GlobError::Traversal);
    }
    Ok(())
}

/// The pattern lines of an `.archignore` file: each line trimmed, blank lines
/// and `#` comments left out.
pub open spec fn ignore_rules(ls: Seq<Seq<char>>) -> Seq<Seq<char>>
    decreases ls.len(),
{
    if ls.len() == 0 {
        Seq::empty()
    } else {
        let rest = ignore_rules(ls.drop_last());
        let t = trim_spec(ls.last());
        if t.len() > 0 && !starts_with(t, seq!['#']) {
            rest.push(t)
        } else {
            rest
        }
    }
}

/// The rules of an `.archignore` text (`ignore_rules` of its lines).
pub fn archignore_lines(text: &str) -> (rules: Vec<String>)
    ensures
        views(rules@) == ignore_rules(lines(text@)),
{
    let cs = crate::text::chars_of(text);
    let ls = split_lines(&cs);
    let mut rules: Vec<String> = Vec::new();
    let mut i: usize = 0;
    let hash: [char; 1] = ['#'];
    proof {
        assert(hash@ == seq!['#']);
        assert(lines(cs@).take(0) =~= Seq::<Seq<char>>::empty());
        assert(views(rules@) =~= Seq::<Seq<char>>::empty());
    }
    while i < ls.len()
        invariant
            i <= ls.len(),
            cs@ == text@,
            hash@ == seq!['#'],
            ls@.len() == lines(cs@).len(),
            forall|k: int| 0 <= k < ls@.len() ==> #[trigger] ls@[k]@ == lines(cs@)[k],
            views(rules@) == ignore_rules(lines(cs@).take(i as int)),
        decreases ls.len() - i,
    {
        proof {
            let all = lines(cs@);
            assert(all.take(i + 1).drop_last() == all.take(i as int));
            assert(all.take(i + 1).last() == ls@[i as int]@);
        }
        let t = crate::text::trim_chars(&ls[i]);
        if t.len() > 0 && !crate::scan::starts_with_chars(&t, &hash) {
            let s = crate::text::string_of(&t);
            proof {
                assert(views(rules@.push(s)) =~= views(rules@).push(s@));
            }
            rules.push(s);
        }
        i = i + 1;
    }
    proof {
        assert(lines(cs@).take(ls.len() as int) == lines(cs@));
    }
    rules
}

#[verifier::external_type_specification]
#[verifier::external_body]
pub struct ExGlobPattern(glob::Pattern);

/// Whether `glob::Pattern::new` accepts the pattern text.
pub uninterp spec fn glob_compiles(pattern: Seq<char>) -> bool;

/// Whether the pattern compiled from `pattern` matches `path`
/// (`glob::Pattern::matches`).
pub uninterp spec fn glob_match(pattern: Seq<char>, path: Seq<char>) -> bool;

/// A compiled glob pattern together with its text.
pub struct GlobPattern {
    text: String,
    compiled: glob::Pattern,
}

impl GlobPattern {
    /// The text the pattern was compiled from.
    pub closed spec fn text_view(&self) -> Seq<char> {
        self.text@
    }
}

/// `glob::Pattern::new`: a compiled pattern when the text is a valid glob.
#[verifier::external_body]
pub(crate) fn compile_glob(pattern: &str) -> (r: Option<GlobPattern>)
    ensures
        r is Some <==> glob_compiles(pattern@),
        r matches Some(p) ==> p.text_view() == pattern@,
{
    match glob::Pattern::new(pattern) {
        Ok(compiled) => Some(GlobPattern { text: pattern.to_string(), compiled }),
        Err(_) => None,
    }
}

/// `glob::Pattern::matches`, named by `glob_match`.
#[verifier::external_body]
pub(crate) fn glob_matches(p: &GlobPattern, path: &str) -> (b: bool)
    ensures
        b == glob_match(p.text_view(), path@),
{
    p.compiled.matches(path)
}

/// The rules that compile, in order.
pub open spec fn compiled_rules(rules: Seq<Seq<char>>) -> Seq<Seq<char>>
    decreases rules.len(),
{
    if rules.len() == 0 {
        Seq::empty()
    } else if glob_compiles(rules.last()) {
        compiled_rules(rules.drop_last()).push(rules.last())
    } else {
        compiled_rules(rules.drop_last())
    }
}

/// Compiles the rules of an `.archignore` text, dropping those that are not
/// valid globs.
pub fn load_archignore(text: &str) -> (pats: Vec<GlobPattern>)
    ensures
        pats@.map_values(|p: GlobPattern| p.text_view()) == compiled_rules(ignore_rules(lines(text@))),
{
    let rules = archignore_lines(text);
    let ghost rv = views(rules@);
    let mut pats: Vec<GlobPattern> = Vec::new();
    let mut i: usize = 0;
    proof {
        assert(rv.take(0) =~= Seq::<Seq<char>>::empty());
        assert(pats@.map_values(|p: GlobPattern| p.text_view()) =~= Seq::<Seq<char>>::empty());
    }
    while i < rules.len()
        invariant
            i <= rules.len(),
            rv == views(rules@),
            rv == ignore_rules(lines(text@)),
            pats@.map_values(|p: GlobPattern| p.text_view()) == compiled_rules(rv.take(i as int)),
        decreases rules.len() - i,
    {
        proof {
            assert(rv.take(i + 1).drop_last() == rv.take(i as int));
            assert(rv.take(i + 1).last() == rules@[i as int]@);
        }
        match compile_glob(rules[i].as_str()) {
            Some(p) => {
                proof {
                    assert(pats@.push(p).map_values(|q: GlobPattern| q.text_view()) =~= pats@.map_values(
                        |q: GlobPattern| q.text_view(),
                    ).push(p.text_view()));
                }
                pats.push(p);
            },
            None => {},
        }
        i = i + 1;
    }
    proof {
        assert(rv.take(rules.len() as int) == rv);
    }
    pats
}

/// Some rule matches the path.
pub open spec fn ignored_by(rules: Seq<Seq<char>>, path: Seq<char>) -> bool {
    exists|i: int| 0 <= i < rules.len() && #[trigger] glob_match(rules[i], path)
}

/// Whether an `.archignore` rule matches the repository-relative path.
pub fn archignored(pats: &Vec<GlobPattern>, rel: &str) -> (b: bool)
    ensures
        b == ignored_by(pats@.map_values(|p: GlobPattern| p.text_view()), rel@),
{
    let ghost ts = pats@.map_values(|p: GlobPattern| p.text_view());
    let mut i: usize = 0;
    while i < pats.len()
        invariant
            i <= pats.len(),
            ts == pats@.map_values(|p: GlobPattern| p.text_view()),
            forall|k: int| 0 <= k < i ==> !#[trigger] glob_match(ts[k], rel@),
        decreases pats.len() - i,
    {
        if glob_matches(&pats[i], rel) {
            proof {
                assert(glob_match(ts[i as int], rel@));
            }
            return true;
        }
        i = i + 1;
    }
    false
}

/// A `Date:` header read as a timestamp: trimmed, then RFC 3339 as it
/// stands or a `%Y-%m-%d` date at midnight UTC.
pub open spec fn normalize_date_spec(value: Seq<char>) -> Option<Seq<char>> {
    timestamp_of(trim_spec(value))
}

/// Reads an ADR's date header (`normalize_date_spec`).
pub fn normalize_date(value: &str) -> (r: Option<String>)
    ensures
        match r {
            Some(t) => normalize_date_spec(value@) == Some(t@),
            None => normalize_date_spec(value@) is None,
        },
{
    let t = crate::text::trim(value);
    timestamp_from_text(t.as_str())
}

/// When an ADR takes effect: its normalised date header, else the date git
/// records for its first commit, else the ingestion time, with a warning.
pub fn adr_effective_from(
    header_date: Option<String>,
    git_date: Option<String>,
    rel: &str,
    now: &str,
) -> (r: (String, Option<String>))
    ensures
        header_date matches Some(d) ==> r.0@ == d@ && r.1 is None,
        header_date is None && git_date is Some ==> r.0@ == git_date->0@ && r.1 is None,
        header_date is None && git_date is None ==> r.0@ == now@ && (r.1 matches Some(w) && w@
            == "no Date header or git author date for "@ + rel@
            + "; using ingestion time as effective_from"@),
{
    if let Some(d) = header_date {
        return (d, None);
    }
    if let Some(g) = git_date {
        return (g, None);
    }
    let mut w = String::from_str("no Date header or git author date for ");
    crate::text::push_str(&mut w, rel);
    crate::text::push_str(&mut w, "; using ingestion time as effective_from");
    (crate::text::string_of(&crate::text::chars_of(now)), Some(w))
}

/// The last non-blank line of `git log --format=%aI` output, trimmed: the
/// author date of the first commit that touched the file.
pub open spec fn last_author_date(out: Seq<char>) -> Option<Seq<char>> {
    let ls = lines(out);
    if ls.len() > 0 && trim_spec(ls.last()).len() > 0 {
        Some(trim_spec(ls.last()))
    } else {
        None
    }
}

/// Reads the author date from `git log` output (`last_author_date`).
pub fn author_date_from_log(out: &str) -> (r: Option<String>)
    ensures
        match r {
            Some(t) => last_author_date(out@) == Some(t@),
            None => last_author_date(out@) is None,
        },
{
    let cs = crate::text::chars_of(out);
    let ls = split_lines(&cs);
    if ls.len() == 0 {
        return None;
    }
    let t = crate::text::trim_chars(&ls[ls.len() - 1]);
    if t.len() == 0 {
        return None;
    }
    Some(crate::text::string_of(&t))
}

/// The result of a sync: the counts, the first `MAX_WARNINGS` warnings and
/// how many there were.
pub fn sync_result(synced: usize, unchanged: usize, closed: usize, warnings: Vec<String>) -> (r: SyncAdrsResult)
    ensures
        r.synced == synced,
        r.unchanged == unchanged,
        r.closed == closed,
        r.warnings_total == warnings@.len(),
        r.warnings@ == (if warnings@.len() <= MAX_WARNINGS { warnings@ } else { warnings@.take(MAX_WARNINGS as int) }),
{
    let total = warnings.len();
    let mut warnings = warnings;
    warnings.truncate(MAX_WARNINGS);
    SyncAdrsResult { synced, unchanged, closed, warnings, warnings_total: total }
}

} // verus!
