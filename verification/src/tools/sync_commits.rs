//! Commit ingestion logic: ADR references in commit messages, how far a
//! commit walk goes, the symbol diff of a file between a commit and its
//! parent, and the evidence a commit gives the decisions it cites.

use vstd::prelude::*;

use crate::ids::{parse_uuid, uuid_value};
use crate::text::{
    chars_of, decimal, occurs_at, occurs_at_exec, push_char, push_decimal, push_str, string_of,
};
use crate::tools::freshness::{AnchorIdentity, AnchorSource, Locator};

verus! {

// ---------------------------------------------------------------------------
// Request / response
// ---------------------------------------------------------------------------

/// Request of `sync_commits_from_git`.
pub struct SyncCommitsFromGitParams {
    /// Absolute path to the git repository root.
    pub repo_path: String,
    /// Branch to walk (default: HEAD).
    pub branch: Option<String>,
    /// ISO-8601 timestamp; only commits at or after it are included.
    pub since: Option<String>,
    /// Maximum number of commits to ingest.
    pub limit: usize,
}

/// Response of `sync_commits_from_git`.
pub struct SyncCommitsResult {
    pub commits_ingested: usize,
    pub commits_unchanged: usize,
    pub links_created: usize,
    pub symbols_added: usize,
    pub symbols_removed: usize,
    pub warnings: Vec<String>,
    pub warnings_total: usize,
}

/// Default number of commits walked.
pub fn default_limit() -> (n: usize)
    ensures
        n == 500,
{
    500
}

// ---------------------------------------------------------------------------
// ADR references
// ---------------------------------------------------------------------------

/// What `str::to_uppercase` returns for a string with these characters.
pub uninterp spec fn str_uppercase(s: Seq<char>) -> Seq<char>;

/// `str::to_uppercase`: named by `str_uppercase`. Of an ASCII text the
/// contract also states what the Unicode uppercase mapping the std
/// documentation names does there: each letter `a`..`z` is raised, every
/// other character kept.
#[verifier::external_body]
pub(crate) fn to_uppercase(s: &str) -> (r: String)
    ensures
        r@ == str_uppercase(s@),
        crate::text::all_ascii(s@) ==> r@ == s@.map_values(|c: char| crate::text::ascii_upper(c)),
{
    s.to_uppercase()
}

/// The first position at or after `p` where `ADR` starts.
pub open spec fn find_adr(u: Seq<char>, p: int) -> Option<int>
    decreases u.len() - p,
{
    if p < 0 || p + 3 > u.len() {
        None
    } else if occurs_at(u, "ADR"@, p) {
        Some(p)
    } else {
        find_adr(u, p + 1)
    }
}

/// `s` without its leading dashes and spaces.
pub open spec fn skip_dashes(s: Seq<char>) -> Seq<char>
    decreases s.len(),
{
    if s.len() > 0 && (s[0] == '-' || s[0] == ' ') {
        skip_dashes(s.drop_first())
    } else {
        s
    }
}

/// ASCII decimal digit.
pub open spec fn is_digit(c: char) -> bool {
    '0' <= c && c <= '9'
}

/// The leading ASCII digits of `s`.
pub open spec fn leading_digits(s: Seq<char>) -> Seq<char>
    decreases s.len(),
{
    if s.len() > 0 && is_digit(s[0]) {
        seq![s[0]] + leading_digits(s.drop_first())
    } else {
        Seq::empty()
    }
}

/// The number a run of ASCII digits spells.
pub open spec fn digits_value(ds: Seq<char>) -> nat
    decreases ds.len(),
{
    if ds.len() == 0 {
        0
    } else {
        digits_value(ds.drop_last()) * 10 + ((ds.last() as u32) - ('0' as u32)) as nat
    }
}

/// `s` padded with leading zeros to at least four characters (`{:04}`).
pub open spec fn pad4(s: Seq<char>) -> Seq<char>
    decreases 4 - s.len(),
{
    if s.len() >= 4 {
        s
    } else {
        pad4(seq!['0'] + s)
    }
}

/// The canonical reference for a run of digits: the digits parsed as `u32`
/// (zero when they do not fit), zero-padded to four places.
pub open spec fn adr_ref_of(ds: Seq<char>) -> Seq<char> {
    let v = if digits_value(ds) <= u32::MAX { digits_value(ds) } else { 0 };
    "ADR-"@ + pad4(decimal(v))
}

/// The references found scanning the uppercased text from position `p`: at
/// each `ADR`, the digits after any dashes and spaces (when there are any)
/// make one reference, and the scan resumes one character past `ADR`.
pub open spec fn refs_from(u: Seq<char>, p: int) -> Seq<Seq<char>>
    decreases u.len() - p,
{
    match find_adr(u, p) {
        None => Seq::empty(),
        Some(q) => if q + 3 >= u.len() || q < p {
            Seq::empty()
        } else {
            let ds = leading_digits(skip_dashes(u.skip(q + 3)));
            let head = if ds.len() > 0 { seq![adr_ref_of(ds)] } else { Seq::empty() };
            head + refs_from(u, q + 4)
        },
    }
}

/// The scan never has to resume inside a multi-byte character: wherever `ADR`
/// is followed by a character, that character is ASCII.
pub open spec fn resumable_from(u: Seq<char>, p: int) -> bool
    decreases u.len() - p,
{
    match find_adr(u, p) {
        None => true,
        Some(q) => if q + 3 >= u.len() || q < p {
            true
        } else {
            (u[q + 3] as u32) < 0x80 && resumable_from(u, q + 4)
        },
    }
}

/// The `ADR` found from `p` lies at or after `p`.
pub proof fn lemma_find_adr_progress(u: Seq<char>, p: int)
    ensures
        find_adr(u, p) matches Some(q) ==> p <= q && q + 3 <= u.len(),
{
    lemma_find_adr_ge(u, p);
}

proof fn lemma_find_adr_ge(u: Seq<char>, p: int)
    ensures
        find_adr(u, p) matches Some(q) ==> p <= q && occurs_at(u, "ADR"@, q) && q + 3 <= u.len(),
    decreases u.len() - p,
{
    if p >= 0 && p + 3 <= u.len() && !occurs_at(u, "ADR"@, p) {
        lemma_find_adr_ge(u, p + 1);
    }
}

fn find_adr_exec(u: &[char], p: usize, adr: &[char]) -> (r: Option<usize>)
    requires
        adr@ == "ADR"@,
    ensures
        r matches Some(q) ==> find_adr(u@, p as int) == Some(q as int),
        r is None ==> find_adr(u@, p as int) is None,
    decreases u.len() - p,
{
    if p > u.len() || u.len() - p < 3 {
        return None;
    }
    if occurs_at_exec(u, adr, p) {
        Some(p)
    } else {
        find_adr_exec(u, p + 1, adr)
    }
}

fn skip_dashes_exec(u: &[char], start: usize) -> (k: usize)
    requires
        start <= u.len(),
    ensures
        start <= k <= u.len(),
        skip_dashes(u@.skip(start as int)) == u@.skip(k as int),
    decreases u.len() - start,
{
    if start < u.len() && (u[start] == '-' || u[start] == ' ') {
        proof {
            assert(u@.skip(start as int).drop_first() == u@.skip(start + 1));
        }
        skip_dashes_exec(u, start + 1)
    } else {
        start
    }
}

/// Reads the digits starting at `start`: where they end, and their value
/// when it fits in `u32`.
fn read_digits(u: &[char], start: usize) -> (r: (usize, Option<u32>))
    requires
        start <= u.len(),
    ensures
        start <= r.0 <= u.len(),
        leading_digits(u@.skip(start as int)) == u@.subrange(start as int, r.0 as int),
        r.1 matches Some(v) ==> v == digits_value(u@.subrange(start as int, r.0 as int)),
        r.1 is None ==> digits_value(u@.subrange(start as int, r.0 as int)) > u32::MAX,
{
    let mut k = start;
    let mut v: Option<u32> = Some(0);
    while k < u.len() && '0' <= u[k] && u[k] <= '9'
        invariant
            start <= k <= u.len(),
            forall|j: int| start <= j < k ==> is_digit(#[trigger] u@[j]),
            v matches Some(x) ==> x == digits_value(u@.subrange(start as int, k as int)),
            v is None ==> digits_value(u@.subrange(start as int, k as int)) > u32::MAX,
        decreases u.len() - k,
    {
        let d = (u[k] as u32) - ('0' as u32);
        proof {
            assert(u@.subrange(start as int, k + 1).drop_last() == u@.subrange(start as int, k as int));
            assert(u@.subrange(start as int, k + 1).last() == u@[k as int]);
        }
        v = match v {
            Some(x) => if x <= (u32::MAX - d) / 10 {
                proof {
                    assert(x * 10 + d <= u32::MAX) by (nonlinear_arith)
                        requires x <= (u32::MAX - d) / 10, d <= 9;
                }
                Some(x * 10 + d)
            } else {
                proof {
                    assert(x * 10 + d > u32::MAX) by (nonlinear_arith)
                        requires x > (u32::MAX - d) / 10, d <= 9;
                }
                None
            },
            None => {
                proof {
                    let w = digits_value(u@.subrange(start as int, k as int));
                    assert(w * 10 + d > u32::MAX) by (nonlinear_arith)
                        requires w > u32::MAX;
                }
                None
            },
        };
        k = k + 1;
    }
    proof {
        lemma_leading_digits_run(u@, start as int, k as int);
    }
    (k, v)
}

proof fn lemma_leading_digits_run(u: Seq<char>, start: int, k: int)
    requires
        0 <= start <= k <= u.len(),
        forall|j: int| start <= j < k ==> is_digit(#[trigger] u[j]),
        k == u.len() || !is_digit(u[k]),
    ensures
        leading_digits(u.skip(start)) == u.subrange(start, k),
    decreases k - start,
{
    if start < k {
        lemma_leading_digits_run(u, start + 1, k);
        assert(u.skip(start).drop_first() == u.skip(start + 1));
        assert(seq![u[start]] + u.subrange(start + 1, k) == u.subrange(start, k));
    } else {
        assert(u.subrange(start, k) == Seq::<char>::empty());
    }
}

pub(crate) fn push_pad4(s: &mut String, v: u64)
    ensures
        final(s)@ == old(s)@ + pad4(decimal(v as nat)),
{
    let mut digits = String::new();
    push_decimal(&mut digits, v);
    let cs = chars_of(digits.as_str());
    let mut zeros: usize = if cs.len() >= 4 { 0 } else { 4 - cs.len() };
    let ghost d = decimal(v as nat);
    proof {
        lemma_pad4(d, zeros as nat);
    }
    while zeros > 0
        invariant
            s@ + Seq::new(zeros as nat, |i: int| '0') + d == old(s)@ + pad4(d),
        decreases zeros,
    {
        let ghost before = s@;
        push_char(s, '0');
        proof {
            assert(before + Seq::new(zeros as nat, |i: int| '0') =~= s@ + Seq::new((zeros - 1) as nat, |i: int| '0'));
        }
        zeros = zeros - 1;
    }
    push_str(s, digits.as_str());
    proof {
        assert(s@ =~= old(s)@ + pad4(d));
    }
}

proof fn lemma_pad4(d: Seq<char>, zeros: nat)
    requires
        zeros == (if d.len() >= 4 { 0 } else { 4 - d.len() }),
    ensures
        Seq::new(zeros, |i: int| '0') + d == pad4(d),
    decreases zeros,
{
    if zeros == 0 {
        assert(Seq::new(0, |i: int| '0') + d =~= d);
    } else {
        let d1 = seq!['0'] + d;
        lemma_pad4(d1, (zeros - 1) as nat);
        assert(Seq::new(zeros, |i: int| '0') + d =~= Seq::new((zeros - 1) as nat, |i: int| '0') + d1);
    }
}

fn adr_ref_exec(u: &[char], start: usize, end: usize, v: Option<u32>) -> (r: String)
    requires
        start <= end <= u.len(),
        v matches Some(x) ==> x == digits_value(u@.subrange(start as int, end as int)),
        v is None ==> digits_value(u@.subrange(start as int, end as int)) > u32::MAX,
    ensures
        r@ == adr_ref_of(u@.subrange(start as int, end as int)),
{
    let n: u32 = match v {
        Some(x) => x,
        None => 0,
    };
    let mut r = String::new();
    push_str(&mut r, "ADR-");
    push_pad4(&mut r, n as u64);
    r
}

/// Whether the uppercased text can be scanned for references, i.e. every
/// `ADR` in it that is followed by a character is followed by an ASCII one.
pub fn refs_resumable(u: &[char], p: usize) -> (b: bool)
    ensures
        b == resumable_from(u@, p as int),
    decreases u.len() - p,
{
    let adr = chars_of("ADR");
    match find_adr_exec(u, p, &adr) {
        None => true,
        Some(q) => {
            proof {
                lemma_find_adr_ge(u@, p as int);
            }
            if q + 3 >= u.len() {
                true
            } else {
                (u[q + 3] as u32) < 0x80 && refs_resumable(u, q + 4)
            }
        },
    }
}

fn refs_exec(u: &[char], p: usize, adr: &[char], out: &mut Vec<String>)
    requires
        adr@ == "ADR"@,
    ensures
        final(out)@.map_values(|s: String| s@) == old(out)@.map_values(|s: String| s@) + refs_from(
            u@,
            p as int,
        ),
    decreases u.len() - p,
{
    match find_adr_exec(u, p, adr) {
        None => {
            proof {
                assert(old(out)@.map_values(|s: String| s@) + Seq::<Seq<char>>::empty() =~= old(out)@.map_values(|s: String| s@));
            }
        },
        Some(q) => {
            proof {
                lemma_find_adr_ge(u@, p as int);
            }
            if q + 3 >= u.len() {
                proof {
                    assert(old(out)@.map_values(|s: String| s@) + Seq::<Seq<char>>::empty() =~= old(out)@.map_values(|s: String| s@));
                }
                return;
            }
            let k = skip_dashes_exec(u, q + 3);
            let (e, v) = read_digits(u, k);
            let ghost ds = leading_digits(skip_dashes(u@.skip(q + 3)));
            let ghost before = out@.map_values(|s: String| s@);
            if e > k {
                let r = adr_ref_exec(u, k, e, v);
                let ghost rv = r@;
                out.push(r);
                proof {
                    assert(ds == u@.subrange(k as int, e as int));
                    assert(out@.map_values(|s: String| s@) =~= before + seq![rv]);
                }
            } else {
                proof {
                    assert(ds.len() == 0);
                    assert(out@.map_values(|s: String| s@) =~= before + Seq::<Seq<char>>::empty());
                }
            }
            let ghost mid = out@.map_values(|s: String| s@);
            refs_exec(u, q + 4, adr, out);
            proof {
                let head = if ds.len() > 0 { seq![adr_ref_of(ds)] } else { Seq::<Seq<char>>::empty() };
                assert(mid == before + head);
                assert(refs_from(u@, p as int) == head + refs_from(u@, q + 4));
                assert(final(out)@.map_values(|s: String| s@) =~= before + (head + refs_from(u@, q + 4)));
            }
        },
    }
}

/// ADR references in a commit message ("ADR-0042", "ADR 42", "adr-7", ...),
/// normalized to `ADR-` and at least four digits, in order of appearance.
/// The message is uppercased first; a number too large for `u32` reads as 0.
pub fn extract_adr_refs(text: &str) -> (refs: Vec<String>)
    requires
        resumable_from(str_uppercase(text@), 0),
    ensures
        refs@.map_values(|s: String| s@) == refs_from(str_uppercase(text@), 0),
{
    let upper = to_uppercase(text);
    adr_refs_in_upper(upper.as_str())
}

/// The ADR references of an uppercased commit message `upper`, normalized to
/// `ADR-` and at least four digits, in order of appearance; a number too
/// large for `u32` reads as 0.
pub fn adr_refs_in_upper(upper: &str) -> (refs: Vec<String>)
    requires
        resumable_from(upper@, 0),
    ensures
        refs@.map_values(|s: String| s@) == refs_from(upper@, 0),
{
    let u = chars_of(upper);
    let adr = chars_of("ADR");
    let mut refs: Vec<String> = Vec::new();
    refs_exec(&u, 0, &adr, &mut refs);
    proof {
        assert(Seq::<String>::empty().map_values(|s: String| s@) + refs_from(u@, 0) =~= refs_from(u@, 0));
    }
    refs
}

/// `extract_adr_refs` for any message: nothing when some `ADR` in the
/// uppercased message is followed by a non-ASCII character, where the scan
/// cannot resume.
pub fn try_extract_adr_refs(text: &str) -> (refs: Option<Vec<String>>)
    ensures
        resumable_from(str_uppercase(text@), 0) <==> refs.is_some(),
        refs matches Some(r) ==> r@.map_values(|s: String| s@) == refs_from(str_uppercase(text@), 0),
{
    let upper = to_uppercase(text);
    let u = chars_of(upper.as_str());
    if refs_resumable(&u, 0) {
        Some(extract_adr_refs(text))
    } else {
        None
    }
}

// ---------------------------------------------------------------------------
// The commit walk
// ---------------------------------------------------------------------------

/// How many commits a walk takes, given their commit times newest first: it
/// stops after `limit` commits, and, when `since` is given, at the first
/// commit older than it.
pub open spec fn window_len(times: Seq<i64>, limit: nat, since: Option<i64>) -> nat
    decreases times.len(),
{
    if times.len() == 0 || limit == 0 {
        0
    } else if since matches Some(t) && times[0] < t {
        0
    } else {
        1 + window_len(times.drop_first(), (limit - 1) as nat, since)
    }
}

/// The number of commits kept from a walk whose commit
/// times, newest first, are `times` (`window_len`).
pub fn commit_window(times: &Vec<i64>, limit: usize, since: Option<i64>) -> (n: usize)
    ensures
        n == window_len(times@, limit as nat, since),
        n <= times@.len(),
        n <= limit,
{
    let mut n: usize = 0;
    proof {
        assert(times@.skip(0) == times@);
    }
    while n < times.len() && n < limit
        invariant
            n <= times@.len(),
            n <= limit,
            window_len(times@, limit as nat, since) == n + window_len(times@.skip(n as int), (limit - n) as nat, since),
        decreases times.len() - n,
    {
        proof {
            assert(times@.skip(n as int)[0] == times@[n as int]);
            assert(times@.skip(n as int).drop_first() == times@.skip(n + 1));
        }
        match since {
            Some(t) => {
                if times[n] < t {
                    return n;
                }
            },
            None => {},
        }
        n = n + 1;
    }
    n
}

// ---------------------------------------------------------------------------
// Symbol diffs
// ---------------------------------------------------------------------------

/// The identity of a symbol: its name and its kind.
pub open spec fn key_view(k: (String, String)) -> (Seq<char>, Seq<char>) {
    (k.0@, k.1@)
}

/// The identities of a list of symbols.
pub open spec fn key_views(ks: Seq<(String, String)>) -> Seq<(Seq<char>, Seq<char>)> {
    ks.map_values(|k: (String, String)| key_view(k))
}

/// Positions, ascending, of the entries of `xs` whose identity is not in
/// `others`.
pub open spec fn absent_positions(xs: Seq<(Seq<char>, Seq<char>)>, others: Seq<(Seq<char>, Seq<char>)>) -> Seq<
    int,
>
    decreases xs.len(),
{
    if xs.len() == 0 {
        Seq::empty()
    } else if others.contains(xs.last()) {
        absent_positions(xs.drop_last(), others)
    } else {
        absent_positions(xs.drop_last(), others).push(xs.len() - 1)
    }
}

/// The entries of `xs`, in order, whose identity is not in `others`.
pub open spec fn absent_keys(xs: Seq<(Seq<char>, Seq<char>)>, others: Seq<(Seq<char>, Seq<char>)>) -> Seq<
    (Seq<char>, Seq<char>),
>
    decreases xs.len(),
{
    if xs.len() == 0 {
        Seq::empty()
    } else if others.contains(xs.last()) {
        absent_keys(xs.drop_last(), others)
    } else {
        absent_keys(xs.drop_last(), others).push(xs.last())
    }
}

/// The symbol diff of a file between a parent commit and a commit.
pub struct SymbolDiff {
    /// Positions in `after` of the symbols whose identity `before` lacks.
    pub added: Vec<usize>,
    /// Identities in `before` that `after` lacks.
    pub removed: Vec<(String, String)>,
}

fn key_in(keys: &Vec<(String, String)>, k: &(String, String)) -> (b: bool)
    ensures
        b == key_views(keys@).contains(key_view(*k)),
{
    let ghost kv = key_views(keys@);
    let mut i: usize = 0;
    while i < keys.len()
        invariant
            i <= keys.len(),
            kv == key_views(keys@),
            forall|j: int| 0 <= j < i ==> kv[j] != key_view(*k),
        decreases keys.len() - i,
    {
        proof {
            assert(kv[i as int] == key_view(keys@[i as int]));
        }
        if crate::text::str_eq(keys[i].0.as_str(), k.0.as_str()) && crate::text::str_eq(
            keys[i].1.as_str(),
            k.1.as_str(),
        ) {
            proof {
                assert(kv[i as int] == key_view(*k));
            }
            return true;
        }
        i = i + 1;
    }
    false
}

/// Which symbols a commit added and removed in a file (`diff_symbols`):
/// identity is the pair (name, kind). Added are the symbols of `after`
/// whose identity `before` lacks, by position; removed are the identities of
/// `before` that `after` lacks, in order.
pub fn diff_symbols(before: &Vec<(String, String)>, after: &Vec<(String, String)>) -> (d: SymbolDiff)
    ensures
        d.added@.map_values(|p: usize| p as int) == absent_positions(key_views(after@), key_views(before@)),
        key_views(d.removed@) == absent_keys(key_views(before@), key_views(after@)),
{
    let ghost bv = key_views(before@);
    let ghost av = key_views(after@);
    let mut added: Vec<usize> = Vec::new();
    let mut i: usize = 0;
    while i < after.len()
        invariant
            i <= after.len(),
            bv == key_views(before@),
            av == key_views(after@),
            added@.map_values(|p: usize| p as int) == absent_positions(av.take(i as int), bv),
        decreases after.len() - i,
    {
        proof {
            assert(av.take(i + 1).drop_last() == av.take(i as int));
            assert(av.take(i + 1).last() == av[i as int]);
            assert(av[i as int] == key_view(after@[i as int]));
        }
        if !key_in(before, &after[i]) {
            let ghost pre = added@;
            added.push(i);
            proof {
                assert(added@.map_values(|p: usize| p as int) == pre.map_values(|p: usize| p as int).push(i as int));
            }
        }
        i = i + 1;
    }
    let mut removed: Vec<(String, String)> = Vec::new();
    let mut j: usize = 0;
    proof {
        assert(key_views(removed@) =~= Seq::<(Seq<char>, Seq<char>)>::empty());
    }
    while j < before.len()
        invariant
            j <= before.len(),
            bv == key_views(before@),
            av == key_views(after@),
            key_views(removed@) == absent_keys(bv.take(j as int), av),
        decreases before.len() - j,
    {
        proof {
            assert(bv.take(j + 1).drop_last() == bv.take(j as int));
            assert(bv.take(j + 1).last() == bv[j as int]);
            assert(bv[j as int] == key_view(before@[j as int]));
        }
        if !key_in(after, &before[j]) {
            let k = (crate::text::copy_string(&before[j].0), crate::text::copy_string(&before[j].1));
            let ghost pre = removed@;
            removed.push(k);
            proof {
                assert(key_views(removed@) == key_views(pre).push(key_view(k)));
            }
        }
        j = j + 1;
    }
    proof {
        assert(av.take(after.len() as int) == av);
        assert(bv.take(before.len() as int) == bv);
    }
    SymbolDiff { added, removed }
}

// ---------------------------------------------------------------------------
// Commit evidence
// ---------------------------------------------------------------------------

/// The evidence a commit gives the claims of a decision whose ADR its message
/// cites: the commit, anchored over its
/// whole message; none when the decision id is not a UUID.
pub fn commit_anchor(decision_id: &str, sha: &str, message: &str) -> (r: Option<(u128, AnchorIdentity, Locator)>)
    ensures
        r is Some <==> uuid_value(decision_id@) is Some,
        r matches Some((d, identity, locator)) ==> {
            &&& uuid_value(decision_id@) == Some(d)
            &&& identity.source_kind == AnchorSource::Commit
            &&& identity.source_uri@ == sha@
            &&& identity.subpath@ == Seq::<char>::empty()
            &&& locator matches Locator::Chars { start, end } && start == 0 && end == message@.len()
        },
{
    match parse_uuid(decision_id) {
        Some(d) => {
            let identity = AnchorIdentity {
                source_kind: AnchorSource::Commit,
                source_uri: string_of(&chars_of(sha)),
                subpath: String::new(),
            };
            let n = chars_of(message).len();
            Some((d, identity, Locator::Chars { start: 0, end: n }))
        },
        None => None,
    }
}

} // verus!
