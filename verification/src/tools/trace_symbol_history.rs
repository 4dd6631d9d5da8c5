//! Symbol history: the request, and how long summaries are shortened.

use vstd::prelude::*;

use crate::text::byte_len;
use crate::tools::ingest_symbols::chars_in_bytes;

verus! {

/// Request for the history of a symbol, file or route.
#[derive(Debug)]
pub struct TraceSymbolHistoryParams {
    /// Absolute path to the repository root.
    pub repo_path: String,
    /// Symbol name, file path (relative to repo root), or route pattern to trace.
    pub symbol: String,
    /// ISO-8601 lower bound for the trace window (inclusive).
    pub valid_from: Option<String>,
    /// ISO-8601 upper bound for the trace window (inclusive).
    pub valid_to: Option<String>,
}

/// `s` when its UTF-8 length is at most `max` bytes; otherwise its first
/// `max` bytes and an ellipsis. Cutting at `max` bytes is defined only where
/// a character ends there.
pub open spec fn truncate_spec(s: Seq<char>, max: nat) -> Seq<char>
    recommends
        byte_len(s) > max ==> chars_in_bytes(s, max as int) is Some,
{
    if byte_len(s) <= max {
        s
    } else {
        s.take(chars_in_bytes(s, max as int)->0).push('…')
    }
}

/// The first `max` bytes of `s`, or all of `s` when it is no longer; the
/// cut must fall on a character boundary.
pub open spec fn byte_prefix_spec(s: Seq<char>, max: nat) -> Seq<char>
    recommends
        byte_len(s) > max ==> chars_in_bytes(s, max as int) is Some,
{
    if byte_len(s) <= max {
        s
    } else {
        s.take(chars_in_bytes(s, max as int)->0)
    }
}

/// The first `max` bytes of `s` (`byte_prefix_spec`, `&s[..max]` when `s`
/// is longer); the cut must fall on a character boundary.
pub fn byte_prefix(s: &str, max: usize) -> (r: String)
    requires
        byte_len(s@) > max ==> chars_in_bytes(s@, max as int) is Some,
    ensures
        r@ == byte_prefix_spec(s@, max as nat),
{
    let cs = crate::text::chars_of(s);
    let total = crate::tools::verify_evidence::byte_len_of(&cs);
    if total <= max as u128 {
        return crate::text::string_of(&cs);
    }
    let mut n: usize = 0;
    let mut bytes: u128 = 0;
    proof {
        assert(cs@.skip(0) == cs@);
    }
    while bytes < max as u128 && n < cs.len()
        invariant
            cs@ == s@,
            n <= cs.len(),
            bytes <= max,
            chars_in_bytes(cs@, max as int) matches Some(m) ==> chars_in_bytes(cs@.skip(n as int), max - bytes) == Some(m - n),
            chars_in_bytes(cs@, max as int) is Some,
        decreases cs.len() - n,
    {
        proof {
            assert(cs@.skip(n as int).drop_first() == cs@.skip(n + 1));
        }
        let w = crate::text::char_width(cs[n]) as u128;
        if w > max as u128 - bytes {
            proof {
                let t = cs@.skip(n as int);
                assert(t[0] == cs@[n as int]);
                assert(chars_in_bytes(t.drop_first(), max - bytes - w) is None);
                assert(chars_in_bytes(t, max - bytes) is None);
            }
            bytes = max as u128;
        } else {
            bytes = bytes + w;
            n = n + 1;
        }
    }
    proof {
        let m = chars_in_bytes(cs@, max as int)->0;
        assert(m == n);
    }
    let head = crate::scan::slice_chars(&cs, 0, n);
    proof {
        assert(head@ == s@.take(n as int));
    }
    crate::text::string_of(&head)
}

/// Shortens `s` to `max` bytes (`truncate_spec`); the cut must fall on a
/// character boundary.
pub fn truncate(s: &str, max: usize) -> (r: String)
    requires
        byte_len(s@) > max ==> chars_in_bytes(s@, max as int) is Some,
    ensures
        r@ == truncate_spec(s@, max as nat),
{
    let cs = crate::text::chars_of(s);
    let total = crate::tools::verify_evidence::byte_len_of(&cs);
    if total <= max as u128 {
        return crate::text::string_of(&cs);
    }
    let mut r = byte_prefix(s, max);
    crate::text::push_char(&mut r, '…');
    r
}

} // verus!
