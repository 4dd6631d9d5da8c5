//! Incremental sync: the request, how the window is bounded, and the list of
//! files that changed in it.

use vstd::prelude::*;
use vstd::relations::sorted_by;

use crate::text::{chars_of, push_char, views};
use crate::tools::ingest_symbols::{dedup_seq, lemma_str_leq_total_ordering, sort_strings, str_leq};

verus! {

/// Request to re-index what changed since a point in time.
#[derive(Debug)]
pub struct SyncIncrementalParams {
    /// Absolute path to the repository root.
    pub repo_path: String,
    /// Only re-index files changed after this point: an ISO-8601 timestamp or
    /// a git ref; the latest ingestion when absent.
    pub since: Option<String>,
    /// Glob for ADR files relative to the root; `docs/adr/*.md` when absent.
    pub adr_glob: Option<String>,
}

/// What an incremental sync re-indexed.
#[derive(Debug)]
pub struct SyncIncrementalResult {
    /// The resolved "since" timestamp used for the diff.
    pub since_resolved: String,
    /// Files identified as changed in the window.
    pub changed_files: Vec<String>,
    /// ADR files that were re-synced.
    pub adrs_resynced: Vec<String>,
    /// Source files whose symbols were re-ingested.
    pub sources_reindexed: Vec<String>,
    pub warnings: Vec<String>,
}

/// The ADR glob of an incremental sync: the requested one, or
/// `docs/adr/*.md`.
pub fn incremental_adr_glob(adr_glob: Option<String>) -> (g: String)
    ensures
        adr_glob matches Some(x) ==> g == x,
        adr_glob is None ==> g@ == "docs/adr/*.md"@,
{
    match adr_glob {
        Some(x) => x,
        None => String::from_str("docs/adr/*.md"),
    }
}

/// How the start of the window is given.
#[derive(Debug, Clone, Copy, PartialEq, Eq, Structural)]
pub enum SinceKind {
    /// An RFC 3339 timestamp: commits older than it end the walk.
    Timestamp,
    /// Anything else is read as a git ref, whose commit and ancestors are
    /// left out of the walk.
    GitRef,
}

/// How a `since` argument is read: as an RFC 3339 time or as a git ref.
pub fn since_kind(since: &str) -> (k: SinceKind)
    ensures
        k == (if crate::dates::rfc3339_parses(since@) { SinceKind::Timestamp } else { SinceKind::GitRef }),
{
    if crate::dates::parses_rfc3339(since) {
        SinceKind::Timestamp
    } else {
        SinceKind::GitRef
    }
}

/// A path with every backslash turned into a forward slash.
pub open spec fn forward_slashes(p: Seq<char>) -> Seq<char> {
    p.map_values(|c: char| if c == '\\' { '/' } else { c })
}

/// The changed files of a window: the paths of the diffs, with forward
/// slashes, sorted, each once.
pub open spec fn changed_list(raw: Seq<Seq<char>>) -> Seq<Seq<char>> {
    dedup_seq(raw.map_values(|p: Seq<char>| forward_slashes(p)).sort_by(str_leq()))
}

fn with_forward_slashes(p: &String) -> (r: String)
    ensures
        r@ == forward_slashes(p@),
{
    let cs = chars_of(p.as_str());
    let mut r = String::new();
    let mut i: usize = 0;
    while i < cs.len()
        invariant
            i <= cs.len(),
            cs@ == p@,
            r@ == forward_slashes(p@).take(i as int),
        decreases cs.len() - i,
    {
        let c = cs[i];
        push_char(&mut r, if c == '\\' { '/' } else { c });
        proof {
            assert(forward_slashes(p@).take(i + 1) == forward_slashes(p@).take(i as int).push(
                forward_slashes(p@)[i as int],
            ));
        }
        i = i + 1;
    }
    proof {
        assert(forward_slashes(p@).take(cs.len() as int) == forward_slashes(p@));
    }
    r
}

/// The list of changed files from the paths the diffs of a window touched
/// (`changed_list`): they are gathered in a set and sorted.
pub fn changed_files(raw: &Vec<String>) -> (r: Vec<String>)
    ensures
        views(r@) == changed_list(views(raw@)),
{
    let ghost target = views(raw@).map_values(|p: Seq<char>| forward_slashes(p));
    let mut paths: Vec<String> = Vec::new();
    let mut i: usize = 0;
    while i < raw.len()
        invariant
            i <= raw.len(),
            target == views(raw@).map_values(|p: Seq<char>| forward_slashes(p)),
            views(paths@) == target.take(i as int),
        decreases raw.len() - i,
    {
        let p = with_forward_slashes(&raw[i]);
        let ghost pre = paths@;
        paths.push(p);
        proof {
            assert(views(paths@) == views(pre).push(p@));
            assert(target.take(i + 1) == target.take(i as int).push(target[i as int]));
        }
        i = i + 1;
    }
    proof {
        assert(target.take(raw.len() as int) == target);
    }
    sort_strings(&mut paths);
    proof {
        lemma_str_leq_total_ordering();
        target.lemma_sort_by_ensures(str_leq());
        vstd::seq_lib::lemma_sorted_unique(views(paths@), target.sort_by(str_leq()), str_leq());
    }
    let ghost sorted = views(paths@);
    let mut out: Vec<String> = Vec::new();
    let mut j: usize = 0;
    proof {
        assert(views(out@) =~= Seq::<Seq<char>>::empty());
        assert(sorted.take(0) =~= Seq::<Seq<char>>::empty());
    }
    while j < paths.len()
        invariant
            j <= paths.len(),
            sorted == views(paths@),
            views(out@) == dedup_seq(sorted.take(j as int)),
            j > 0 ==> dedup_seq(sorted.take(j as int)).len() > 0 && dedup_seq(sorted.take(j as int)).last()
                == sorted[j - 1],
        decreases paths.len() - j,
    {
        let ghost pre = sorted.take(j as int);
        let ghost post = sorted.take(j + 1);
        proof {
            assert(post.drop_last() == pre);
            assert(post.last() == sorted[j as int]);
        }
        let fresh = j == 0 || !crate::text::str_eq(paths[j].as_str(), paths[j - 1].as_str());
        if fresh {
            proof {
                if j > 0 {
                    assert(post[post.len() - 2] == sorted[j - 1]);
                }
                assert(dedup_seq(post) == dedup_seq(pre).push(sorted[j as int]));
            }
            let c = crate::text::copy_string(&paths[j]);
            let ghost before = out@;
            out.push(c);
            proof {
                assert(views(out@) == views(before).push(c@));
            }
        } else {
            proof {
                assert(post[post.len() - 2] == sorted[j - 1]);
                assert(dedup_seq(post) == dedup_seq(pre));
            }
        }
        j = j + 1;
    }
    proof {
        assert(sorted.take(paths.len() as int) == sorted);
    }
    out
}

/// Where a window given by an RFC 3339 time starts: the time's seconds, and
/// the time itself as the text shown for it.
pub fn timestamp_window(since: &str) -> (r: Option<(i64, String)>)
    ensures
        r is Some <==> crate::dates::rfc3339_parses(since@),
        r matches Some((t, d)) ==> crate::dates::rfc3339_seconds(since@) == Some(t) && d@ == since@,
{
    match crate::dates::rfc3339_timestamp(since) {
        Some(t) => Some((t, crate::text::string_of(&chars_of(since)))),
        None => None,
    }
}

/// The text shown for a window that starts at a git ref: the time of the
/// ref's commit, or an error when chrono cannot represent it.
pub fn ref_window_display(commit_secs: i64) -> (r: Result<String, String>)
    ensures
        match r {
            Ok(t) => crate::dates::epoch_text(commit_secs) == Some(t@),
            Err(e) => crate::dates::epoch_text(commit_secs) is None && e@ == "commit timestamp out of range"@,
        },
{
    match crate::dates::epoch_rfc3339(commit_secs) {
        Some(t) => Ok(t),
        None => Err(String::from_str("commit timestamp out of range")),
    }
}

/// The error for a window start that is neither a time nor a git ref.
pub fn not_time_or_ref(input: &str) -> (e: String)
    ensures
        e@ == "'"@ + input@ + "' is not a valid ISO-8601 timestamp or git ref"@,
{
    let mut e = String::new();
    crate::text::push_str(&mut e, "'");
    crate::text::push_str(&mut e, input);
    crate::text::push_str(&mut e, "' is not a valid ISO-8601 timestamp or git ref");
    e
}

/// The error for a git ref that does not name a commit.
pub fn ref_not_commit(input: &str) -> (e: String)
    ensures
        e@ == "git ref '"@ + input@ + "' does not point to a commit"@,
{
    let mut e = String::new();
    crate::text::push_str(&mut e, "git ref '");
    crate::text::push_str(&mut e, input);
    crate::text::push_str(&mut e, "' does not point to a commit");
    e
}

} // verus!
