//! Index integrity: the projection of the ADR claims of an index (claims per
//! key), and the comparison of the live index's projection with what a full
//! re-sync produces.

use vstd::prelude::*;
use vstd::relations::sorted_by;

use crate::scan::join;
use crate::text::views;
use crate::tools::freshness::AnchorSource;
use crate::tools::ingest_symbols::{
    dedup_seq, lemma_dedup_members, lemma_dedup_sorted_increasing, lemma_str_leq_total_ordering, sort_strings,
    str_leq,
};

verus! {

/// Request to audit the index against a full re-sync.
#[derive(Debug)]
pub struct VerifyIndexIntegrityParams {
    /// Absolute path to the repository root.
    pub repo_path: String,
    /// Glob for ADR files relative to the repo root.
    pub adr_glob: String,
}

/// The audit of one index lane.
#[derive(Debug)]
pub struct LaneIntegrity {
    pub lane: String,
    /// `clean`, `divergent`, or `not_audited`.
    pub status: String,
    pub live_claims: usize,
    pub rebuilt_claims: usize,
    /// Projection keys present live but not in a full re-sync (stale rows).
    pub only_in_live: Vec<String>,
    /// Projection keys a full re-sync produces that the live index is missing.
    pub only_in_rebuild: Vec<String>,
}

/// The audit of all lanes.
#[derive(Debug)]
pub struct VerifyIndexIntegrityResult {
    pub repo_path: String,
    /// True when every audited lane is `clean`.
    pub consistent: bool,
    pub lanes: Vec<LaneIntegrity>,
    pub warnings: Vec<String>,
}

/// The ADR glob used when the request does not say.
pub fn default_adr_glob() -> (g: String)
    ensures
        g@ == "docs/adr/*.md"@,
{
    String::from_str("docs/adr/*.md")
}

/// The key under which a claim is compared: its kind, its polarity (or
/// `none`), its whitespace-normalised text and its sorted anchor hashes,
/// separated by `|` (the hashes by `,`).
pub open spec fn projection_key_spec(
    kind: Seq<char>,
    polarity: Option<Seq<char>>,
    text_norm: Seq<char>,
    hashes: Seq<Seq<char>>,
) -> Seq<char> {
    kind + "|"@ + (match polarity {
        Some(p) => p,
        None => "none"@,
    }) + "|"@ + text_norm + "|"@ + join(hashes.sort_by(str_leq()), ","@)
}

/// The projection key of a claim (`projection_key_spec`); `text_norm` is the
/// claim text with whitespace normalised.
pub fn projection_key(kind: &str, polarity: Option<&str>, text_norm: &str, anchor_hashes: &Vec<String>) -> (k: String)
    ensures
        k@ == projection_key_spec(
            kind@,
            match polarity {
                Some(p) => Some(p@),
                None => None,
            },
            text_norm@,
            views(anchor_hashes@),
        ),
{
    let mut hashes: Vec<String> = Vec::new();
    let mut i: usize = 0;
    proof {
        assert(views(hashes@) =~= views(anchor_hashes@).take(0));
    }
    while i < anchor_hashes.len()
        invariant
            i <= anchor_hashes.len(),
            views(hashes@) == views(anchor_hashes@).take(i as int),
        decreases anchor_hashes.len() - i,
    {
        let h = crate::text::copy_string(&anchor_hashes[i]);
        proof {
            assert(views(hashes@.push(h)) =~= views(hashes@).push(h@));
            assert(views(anchor_hashes@).take(i + 1) == views(anchor_hashes@).take(i as int).push(h@));
        }
        hashes.push(h);
        i = i + 1;
    }
    proof {
        assert(views(anchor_hashes@).take(anchor_hashes.len() as int) == views(anchor_hashes@));
    }
    let ghost unsorted = views(hashes@);
    sort_strings(&mut hashes);
    proof {
        lemma_str_leq_total_ordering();
        unsorted.lemma_sort_by_ensures(str_leq());
        vstd::seq_lib::lemma_sorted_unique(views(hashes@), unsorted.sort_by(str_leq()), str_leq());
    }
    let mut k = crate::text::string_of(&crate::text::chars_of(kind));
    crate::text::push_str(&mut k, "|");
    match polarity {
        Some(p) => crate::text::push_str(&mut k, p),
        None => crate::text::push_str(&mut k, "none"),
    }
    crate::text::push_str(&mut k, "|");
    crate::text::push_str(&mut k, text_norm);
    crate::text::push_str(&mut k, "|");
    let ghost head = k@;
    let ghost hv = views(hashes@);
    let mut j: usize = 0;
    proof {
        assert(hv.take(0) =~= Seq::<Seq<char>>::empty());
    }
    while j < hashes.len()
        invariant
            j <= hashes.len(),
            hv == views(hashes@),
            k@ == head + join(hv.take(j as int), ","@),
        decreases hashes.len() - j,
    {
        if j > 0 {
            crate::text::push_str(&mut k, ",");
        }
        crate::text::push_str(&mut k, hashes[j].as_str());
        proof {
            let t = hv.take(j + 1);
            assert(t.drop_last() == hv.take(j as int));
            assert(t.last() == hashes@[j as int]@);
            if j == 0 {
                assert(t.len() == 1);
            }
            assert(k@ =~= head + join(t, ","@));
        }
        j = j + 1;
    }
    proof {
        assert(hv.take(hashes.len() as int) == hv);
    }
    k
}

/// The keys of a projection.
pub open spec fn keys_of(p: Seq<(String, usize)>) -> Seq<Seq<char>> {
    p.map_values(|e: (String, usize)| e.0@)
}

/// The keys of `a` that `b` lacks, in order.
pub open spec fn keys_missing(a: Seq<(String, usize)>, b: Seq<(String, usize)>) -> Seq<Seq<char>>
    decreases a.len(),
{
    if a.len() == 0 {
        Seq::empty()
    } else if keys_of(b).contains(a.last().0@) {
        keys_missing(a.drop_last(), b)
    } else {
        keys_missing(a.drop_last(), b).push(a.last().0@)
    }
}

/// The number of claims a projection counts.
pub open spec fn claims_in(p: Seq<(String, usize)>) -> nat
    decreases p.len(),
{
    if p.len() == 0 {
        0
    } else {
        claims_in(p.drop_last()) + p.last().1 as nat
    }
}

proof fn lemma_claims_in_mono(p: Seq<(String, usize)>, i: int)
    requires
        0 <= i <= p.len(),
    ensures
        claims_in(p.take(i)) <= claims_in(p),
    decreases p.len() - i,
{
    if i < p.len() {
        lemma_claims_in_mono(p, i + 1);
        assert(p.take(i + 1).drop_last() == p.take(i));
    } else {
        assert(p.take(i) == p);
    }
}

fn has_key(p: &Vec<(String, usize)>, key: &String) -> (b: bool)
    ensures
        b == keys_of(p@).contains(key@),
{
    let mut i: usize = 0;
    while i < p.len()
        invariant
            i <= p.len(),
            forall|k: int| 0 <= k < i ==> keys_of(p@)[k] != key@,
        decreases p.len() - i,
    {
        if crate::text::str_eq(p[i].0.as_str(), key.as_str()) {
            proof {
                assert(keys_of(p@)[i as int] == key@);
            }
            return true;
        }
        i = i + 1;
    }
    false
}

fn missing_keys(a: &Vec<(String, usize)>, b: &Vec<(String, usize)>) -> (out: Vec<String>)
    ensures
        views(out@) == keys_missing(a@, b@),
{
    let mut out: Vec<String> = Vec::new();
    let mut i: usize = 0;
    proof {
        assert(a@.take(0) =~= Seq::<(String, usize)>::empty());
        assert(views(out@) =~= Seq::<Seq<char>>::empty());
    }
    while i < a.len()
        invariant
            i <= a.len(),
            views(out@) == keys_missing(a@.take(i as int), b@),
        decreases a.len() - i,
    {
        proof {
            assert(a@.take(i + 1).drop_last() == a@.take(i as int));
            assert(a@.take(i + 1).last() == a@[i as int]);
        }
        if !has_key(b, &a[i].0) {
            let k = crate::text::copy_string(&a[i].0);
            proof {
                assert(views(out@.push(k)) =~= views(out@).push(k@));
            }
            out.push(k);
        }
        i = i + 1;
    }
    proof {
        assert(a@.take(a.len() as int) == a@);
    }
    out
}

fn total_claims(p: &Vec<(String, usize)>) -> (n: usize)
    requires
        claims_in(p@) <= usize::MAX,
    ensures
        n == claims_in(p@),
{
    let mut n: usize = 0;
    let mut i: usize = 0;
    while i < p.len()
        invariant
            i <= p.len(),
            claims_in(p@) <= usize::MAX,
            n == claims_in(p@.take(i as int)),
        decreases p.len() - i,
    {
        proof {
            assert(p@.take(i + 1).drop_last() == p@.take(i as int));
            lemma_claims_in_mono(p@, i + 1);
        }
        n = n + p[i].1;
        i = i + 1;
    }
    proof {
        assert(p@.take(p.len() as int) == p@);
    }
    n
}

/// Every key the two projections share has the same claim count in both.
pub open spec fn counts_agree(a: Seq<(String, usize)>, b: Seq<(String, usize)>) -> bool {
    forall|i: int, j: int|
        0 <= i < a.len() && 0 <= j < b.len() && #[trigger] a[i].0@ == #[trigger] b[j].0@ ==> a[i].1 == b[j].1
}

fn counts_agree_exec(a: &Vec<(String, usize)>, b: &Vec<(String, usize)>) -> (r: bool)
    ensures
        r == counts_agree(a@, b@),
{
    let mut i: usize = 0;
    while i < a.len()
        invariant
            i <= a.len(),
            forall|x: int, y: int|
                0 <= x < i && 0 <= y < b@.len() && #[trigger] a@[x].0@ == #[trigger] b@[y].0@ ==> a@[x].1 == b@[y].1,
        decreases a.len() - i,
    {
        let mut j: usize = 0;
        while j < b.len()
            invariant
                i < a.len(),
                j <= b.len(),
                forall|x: int, y: int|
                    0 <= x < i && 0 <= y < b@.len() && #[trigger] a@[x].0@ == #[trigger] b@[y].0@ ==> a@[x].1 == b@[y].1,
                forall|y: int| 0 <= y < j && a@[i as int].0@ == #[trigger] b@[y].0@ ==> a@[i as int].1 == b@[y].1,
            decreases b.len() - j,
        {
            if crate::text::str_eq(a[i].0.as_str(), b[j].0.as_str()) && a[i].1 != b[j].1 {
                return false;
            }
            j = j + 1;
        }
        i = i + 1;
    }
    true
}

/// A lane that is not audited.
fn unaudited(lane: &str) -> (l: LaneIntegrity)
    ensures
        l.lane@ == lane@,
        l.status@ == "not_audited"@,
        l.live_claims == 0,
        l.rebuilt_claims == 0,
        l.only_in_live@.len() == 0,
        l.only_in_rebuild@.len() == 0,
{
    LaneIntegrity {
        lane: crate::text::string_of(&crate::text::chars_of(lane)),
        status: String::from_str("not_audited"),
        live_claims: 0,
        rebuilt_claims: 0,
        only_in_live: Vec::new(),
        only_in_rebuild: Vec::new(),
    }
}

/// The audit from the live and rebuilt ADR projections (claim count per
/// key, each key once): the ADR lane is `clean` when both projections are
/// equal, that is they have the same keys and each key counts the same
/// claims in both, and `divergent` otherwise; the symbol and commit lanes
/// are not audited. The index is consistent when the ADR lane is clean, and
/// both sides then count the same claims.
pub fn integrity_report(repo_path: String, live: &Vec<(String, usize)>, rebuilt: &Vec<(String, usize)>, warnings: Vec<String>) -> (r: VerifyIndexIntegrityResult)
    requires
        keys_of(live@).no_duplicates(),
        keys_of(rebuilt@).no_duplicates(),
        claims_in(live@) <= usize::MAX,
        claims_in(rebuilt@) <= usize::MAX,
    ensures
        r.consistent ==> r.lanes@[0].live_claims == r.lanes@[0].rebuilt_claims,
        r.repo_path == repo_path,
        r.warnings == warnings,
        r.lanes@.len() == 3,
        r.lanes@[0].lane@ == "adr"@,
        views(r.lanes@[0].only_in_live@) == keys_missing(live@, rebuilt@),
        views(r.lanes@[0].only_in_rebuild@) == keys_missing(rebuilt@, live@),
        r.lanes@[0].live_claims == claims_in(live@),
        r.lanes@[0].rebuilt_claims == claims_in(rebuilt@),
        r.consistent == (keys_missing(live@, rebuilt@).len() == 0 && keys_missing(rebuilt@, live@).len() == 0
            && counts_agree(live@, rebuilt@)),
        r.lanes@[0].status@ == (if r.consistent { "clean"@ } else { "divergent"@ }),
        r.lanes@[1].lane@ == "symbol"@ && r.lanes@[1].status@ == "not_audited"@,
        r.lanes@[2].lane@ == "commit"@ && r.lanes@[2].status@ == "not_audited"@,
{
    let only_in_live = missing_keys(live, rebuilt);
    let only_in_rebuild = missing_keys(rebuilt, live);
    let clean = only_in_live.len() == 0 && only_in_rebuild.len() == 0 && counts_agree_exec(live, rebuilt);
    proof {
        assert(views(only_in_live@).len() == only_in_live@.len());
        assert(views(only_in_rebuild@).len() == only_in_rebuild@.len());
    }
    let adr = LaneIntegrity {
        lane: String::from_str("adr"),
        status: if clean { String::from_str("clean") } else { String::from_str("divergent") },
        live_claims: total_claims(live),
        rebuilt_claims: total_claims(rebuilt),
        only_in_live,
        only_in_rebuild,
    };
    proof {
        if clean {
            crate::laws::law_consistent_audit_counts_the_same_claims(live@, rebuilt@);
        }
    }
    let lanes = vec![adr, unaudited("symbol"), unaudited("commit")];
    VerifyIndexIntegrityResult { repo_path, consistent: clean, lanes, warnings }
}

// ---------------------------------------------------------------------------
// Building a projection
// ---------------------------------------------------------------------------

/// The content hashes of the anchors that cite an ADR, in order: a claim is
/// in the ADR lane when it has any.
pub open spec fn adr_hashes_spec(anchors: Seq<(AnchorSource, String)>) -> Seq<Seq<char>>
    decreases anchors.len(),
{
    if anchors.len() == 0 {
        Seq::empty()
    } else if anchors.last().0 == AnchorSource::Adr {
        adr_hashes_spec(anchors.drop_last()).push(anchors.last().1@)
    } else {
        adr_hashes_spec(anchors.drop_last())
    }
}

/// The content hashes of a claim's ADR anchors (`adr_hashes_spec`), from its
/// anchors' source kinds and hashes.
pub fn adr_hashes(anchors: &Vec<(AnchorSource, String)>) -> (r: Vec<String>)
    ensures
        views(r@) == adr_hashes_spec(anchors@),
{
    let mut out: Vec<String> = Vec::new();
    let mut i: usize = 0;
    proof {
        assert(views(out@) =~= Seq::<Seq<char>>::empty());
    }
    while i < anchors.len()
        invariant
            i <= anchors.len(),
            views(out@) == adr_hashes_spec(anchors@.take(i as int)),
        decreases anchors.len() - i,
    {
        proof {
            assert(anchors@.take(i + 1).drop_last() == anchors@.take(i as int));
            assert(anchors@.take(i + 1).last() == anchors@[i as int]);
        }
        if anchors[i].0 == AnchorSource::Adr {
            let h = crate::text::copy_string(&anchors[i].1);
            let ghost before = out@;
            out.push(h);
            proof {
                assert(views(out@) == views(before).push(h@));
            }
        }
        i = i + 1;
    }
    proof {
        assert(anchors@.take(anchors.len() as int) == anchors@);
    }
    out
}

/// A projection from the keys of the claims it covers:
/// each distinct key once, in ascending order, with the number of claims
/// that have it.
pub fn tally_keys(keys: &Vec<String>) -> (p: Vec<(String, usize)>)
    ensures
        keys_of(p@) == dedup_seq(views(keys@).sort_by(str_leq())),
        keys_of(p@).no_duplicates(),
        forall|i: int| 0 <= i < p@.len() ==> #[trigger] p@[i].1 == views(keys@).to_multiset().count(p@[i].0@),
{
    let mut sorted_keys: Vec<String> = Vec::new();
    let mut i: usize = 0;
    while i < keys.len()
        invariant
            i <= keys.len(),
            views(sorted_keys@) == views(keys@).take(i as int),
        decreases keys.len() - i,
    {
        let k = crate::text::copy_string(&keys[i]);
        let ghost before = sorted_keys@;
        sorted_keys.push(k);
        proof {
            assert(views(sorted_keys@) == views(before).push(k@));
            assert(views(keys@).take(i + 1) == views(keys@).take(i as int).push(views(keys@)[i as int]));
        }
        i = i + 1;
    }
    proof {
        assert(views(keys@).take(keys.len() as int) == views(keys@));
    }
    let ghost unsorted = views(sorted_keys@);
    sort_strings(&mut sorted_keys);
    let ghost s = views(sorted_keys@);
    proof {
        lemma_str_leq_total_ordering();
        unsorted.lemma_sort_by_ensures(str_leq());
        vstd::seq_lib::lemma_sorted_unique(s, unsorted.sort_by(str_leq()), str_leq());
    }
    let mut out: Vec<(String, usize)> = Vec::new();
    let mut j: usize = 0;
    proof {
        assert(keys_of(out@) =~= Seq::<Seq<char>>::empty());
        assert(s.take(0) =~= Seq::<Seq<char>>::empty());
    }
    while j < sorted_keys.len()
        invariant
            j <= sorted_keys.len(),
            s == views(sorted_keys@),
            s.len() == sorted_keys@.len(),
            sorted_by(s, str_leq()),
            keys_of(out@) == dedup_seq(s.take(j as int)),
            forall|t: int| 0 <= t < out@.len() ==> #[trigger] out@[t].1 == s.take(j as int).to_multiset().count(out@[t].0@),
            forall|t: int| 0 <= t < out@.len() ==> #[trigger] out@[t].1 <= j,
            j > 0 ==> out@.len() > 0 && out@.last().0@ == s[j - 1],
        decreases sorted_keys.len() - j,
    {
        let ghost pre = s.take(j as int);
        let ghost post = s.take(j + 1);
        let ghost x = s[j as int];
        proof {
            broadcast use vstd::seq_lib::group_to_multiset_ensures, vstd::multiset::group_multiset_axioms;

            assert(post == pre.push(x));
            assert(post.to_multiset() =~= pre.to_multiset().insert(x));
            assert(post.drop_last() == pre);
            assert(post.last() == x);
            assert(sorted_by(pre, str_leq())) by {
                assert forall|a: int, b: int| 0 <= a < b < pre.len() implies #[trigger] str_leq()(pre[a], pre[b]) by {
                    assert(pre[a] == s[a] && pre[b] == s[b]);
                }
            }
            lemma_dedup_sorted_increasing(pre);
            lemma_dedup_members(pre);
        }
        let repeat = j > 0 && crate::text::str_eq(sorted_keys[j].as_str(), sorted_keys[j - 1].as_str());
        if repeat {
            let last = out.len() - 1;
            let (k, n) = out.remove(last);
            let ghost o0 = out@;
            proof {
                assert(post[post.len() - 2] == s[j - 1]);
                assert(dedup_seq(post) == dedup_seq(pre));
            }
            out.push((k, n + 1));
            proof {
                broadcast use vstd::seq_lib::group_to_multiset_ensures, vstd::multiset::group_multiset_axioms;

                let d = dedup_seq(pre);
                assert(keys_of(out@) =~= keys_of(o0).push(k@));
                assert forall|t: int| 0 <= t < out@.len() implies #[trigger] out@[t].1 == post.to_multiset().count(out@[t].0@) by {
                    if t < last {
                        assert(out@[t] == o0[t]);
                        assert(d[t] == out@[t].0@);
                        assert(d[last as int] == k@);
                        assert(d[t] != d[last as int]);
                    }
                }
            }
        } else {
            let k = crate::text::copy_string(&sorted_keys[j]);
            let ghost o0 = out@;
            proof {
                broadcast use vstd::seq_lib::group_to_multiset_ensures, vstd::multiset::group_multiset_axioms;

                if j > 0 {
                    assert(post[post.len() - 2] == s[j - 1]);
                }
                assert(dedup_seq(post) == dedup_seq(pre).push(x));
                assert(!pre.contains(x)) by {
                    if pre.contains(x) {
                        lemma_str_leq_total_ordering();
                        let w = choose|w: int| 0 <= w < pre.len() && pre[w] == x;
                        assert(s[w] == x);
                        assert(str_leq()(s[j - 1], s[j as int]));
                        if w < j - 1 {
                            assert(str_leq()(s[w], s[j - 1]));
                            assert(str_leq()(x, s[j - 1]));
                            assert(str_leq()(s[j - 1], x));
                        }
                        assert(s[j - 1] == x);
                    }
                }
                assert(pre.to_multiset().count(x) == 0);
            }
            out.push((k, 1));
            proof {
                broadcast use vstd::seq_lib::group_to_multiset_ensures, vstd::multiset::group_multiset_axioms;

                assert(keys_of(out@) =~= keys_of(o0).push(k@));
                assert forall|t: int| 0 <= t < out@.len() implies #[trigger] out@[t].1 == post.to_multiset().count(out@[t].0@) by {
                    if t < o0.len() {
                        assert(out@[t] == o0[t]);
                        assert(dedup_seq(pre)[t] == o0[t].0@);
                        assert(dedup_seq(pre).contains(o0[t].0@));
                        assert(pre.contains(o0[t].0@));
                        assert(o0[t].0@ != x);
                    }
                }
            }
        }
        j = j + 1;
    }
    proof {
        assert(s.take(sorted_keys.len() as int) == s);
        assert(s.to_multiset() == views(keys@).to_multiset());
        lemma_dedup_sorted_increasing(s);
    }
    out
}

} // verus!
