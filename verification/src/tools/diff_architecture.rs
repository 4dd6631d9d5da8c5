//! Architecture diffs between two points in time: the request, the result,
//! and the summary sentence.

use vstd::prelude::*;

use crate::text::{decimal, push_decimal, push_str};
use crate::tools::ingest_symbols::chars_in_bytes;

verus! {

/// Request for what changed between two points in time.
#[derive(Debug)]
pub struct DiffArchitectureParams {
    /// Absolute path to the repository root.
    pub repo_path: String,
    /// Start of the window: an ISO-8601 timestamp or a git ref.
    pub from: String,
    /// End of the window; now when absent.
    pub to: Option<String>,
}

/// What was added and removed in the window.
#[derive(Debug)]
pub struct DiffArchitectureResult {
    pub from_timestamp: String,
    pub to_timestamp: String,
    pub decisions_added: Vec<DiffEntry>,
    pub decisions_removed: Vec<DiffEntry>,
    pub constraints_added: Vec<DiffEntry>,
    pub constraints_removed: Vec<DiffEntry>,
    pub adrs_added: Vec<DiffEntry>,
    pub adrs_removed: Vec<DiffEntry>,
    pub summary: String,
}

/// One added or removed entity.
#[derive(Debug)]
pub struct DiffEntry {
    pub id: String,
    pub title: String,
    pub adr_id: Option<String>,
    pub timestamp: String,
}

/// The date part of a timestamp: its first ten bytes.
pub open spec fn date_part(ts: Seq<char>) -> Seq<char> {
    match chars_in_bytes(ts, 10) {
        Some(k) => ts.take(k),
        None => Seq::empty(),
    }
}

/// The summary of a diff: the window by date and the six counts.
pub open spec fn diff_summary_spec(from: Seq<char>, to: Seq<char>, counts: Seq<nat>) -> Seq<char> {
    "Between "@ + date_part(from) + " and "@ + date_part(to) + ": "@ + decimal(counts[0])
        + " decision(s) added, "@ + decimal(counts[1]) + " removed; "@ + decimal(counts[2])
        + " constraint(s) added, "@ + decimal(counts[3]) + " removed; "@ + decimal(counts[4])
        + " ADR(s) added, "@ + decimal(counts[5]) + " removed."@
}

fn push_prefix_bytes(out: &mut String, s: &str, n: usize)
    requires
        chars_in_bytes(s@, n as int) is Some,
    ensures
        final(out)@ == old(out)@ + s@.take(chars_in_bytes(s@, n as int)->0),
{
    let cs = crate::text::chars_of(s);
    let mut k: usize = 0;
    let mut bytes: usize = 0;
    proof {
        assert(cs@.skip(0) == cs@);
    }
    while bytes < n && k < cs.len()
        invariant
            cs@ == s@,
            k <= cs.len(),
            bytes <= n,
            chars_in_bytes(cs@, n as int) matches Some(m) ==> chars_in_bytes(cs@.skip(k as int), n - bytes) == Some(m - k),
            chars_in_bytes(cs@, n as int) is Some,
        decreases cs.len() - k,
    {
        proof {
            assert(cs@.skip(k as int).drop_first() == cs@.skip(k + 1));
        }
        let w = crate::text::char_width(cs[k]);
        if w > n - bytes {
            proof {
                let t = cs@.skip(k as int);
                assert(t[0] == cs@[k as int]);
                assert(chars_in_bytes(t.drop_first(), n - bytes - w) is None);
            }
            bytes = n;
        } else {
            bytes = bytes + w;
            k = k + 1;
        }
    }
    proof {
        let m = chars_in_bytes(cs@, n as int)->0;
        assert(m == k);
    }
    let head = crate::scan::slice_chars(&cs, 0, k);
    let t = crate::text::string_of(&head);
    push_str(out, t.as_str());
}

/// Writes the summary of a diff (`diff_summary_spec`); both timestamps must
/// have a character boundary at byte ten.
pub fn diff_summary(from: &str, to: &str, counts: [usize; 6]) -> (s: String)
    requires
        chars_in_bytes(from@, 10) is Some,
        chars_in_bytes(to@, 10) is Some,
    ensures
        s@ == diff_summary_spec(from@, to@, counts@.map_values(|c: usize| c as nat)),
{
    let mut s = String::from_str("Between ");
    push_prefix_bytes(&mut s, from, 10);
    push_str(&mut s, " and ");
    push_prefix_bytes(&mut s, to, 10);
    push_str(&mut s, ": ");
    push_decimal(&mut s, counts[0] as u64);
    push_str(&mut s, " decision(s) added, ");
    push_decimal(&mut s, counts[1] as u64);
    push_str(&mut s, " removed; ");
    push_decimal(&mut s, counts[2] as u64);
    push_str(&mut s, " constraint(s) added, ");
    push_decimal(&mut s, counts[3] as u64);
    push_str(&mut s, " removed; ");
    push_decimal(&mut s, counts[4] as u64);
    push_str(&mut s, " ADR(s) added, ");
    push_decimal(&mut s, counts[5] as u64);
    push_str(&mut s, " removed.");
    s
}

/// A diff boundary given by a git ref: the time of
/// the ref's commit, or an error when chrono cannot represent it.
pub fn ref_timestamp(input: &str, commit_secs: i64) -> (r: Result<String, String>)
    ensures
        match r {
            Ok(t) => crate::dates::epoch_text(commit_secs) == Some(t@),
            Err(e) => crate::dates::epoch_text(commit_secs) is None && e@
                == "git commit timestamp out of range for ref '"@ + input@ + "'"@,
        },
{
    match crate::dates::epoch_rfc3339(commit_secs) {
        Some(t) => Ok(t),
        None => {
            let mut e = String::new();
            push_str(&mut e, "git commit timestamp out of range for ref '");
            push_str(&mut e, input);
            push_str(&mut e, "'");
            Err(e)
        },
    }
}

} // verus!
