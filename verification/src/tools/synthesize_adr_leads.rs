//! Synthesising ADR leads: request defaults, the run summary, and the
//! overlap of two file lists used to drop near-duplicate leads.

use vstd::prelude::*;

use crate::text::views;

verus! {

/// What a synthesis run did.
#[derive(Debug)]
pub struct SynthesizeSummary {
    pub candidates_examined: u32,
    pub synthesized: u32,
    pub skipped: u32,
    pub deduplicated: u32,
    pub warnings: Vec<String>,
}

/// The flag default that is `true`.
pub fn default_true() -> (b: bool)
    ensures
        b,
{
    true
}

/// The episode source recorded for synthesised leads by default.
pub fn default_episode_source() -> (s: String)
    ensures
        s@ == "synthetic:llm"@,
{
    String::from_str("synthetic:llm")
}

/// The number of distinct elements of `s`.
pub open spec fn distinct_count(s: Seq<Seq<char>>) -> nat
    decreases s.len(),
{
    if s.len() == 0 {
        0
    } else {
        distinct_count(s.drop_last()) + if s.drop_last().contains(s.last()) {
            0nat
        } else {
            1nat
        }
    }
}

/// The number of distinct elements of `a` that `b` holds.
pub open spec fn common_count(a: Seq<Seq<char>>, b: Seq<Seq<char>>) -> nat
    decreases a.len(),
{
    if a.len() == 0 {
        0
    } else {
        common_count(a.drop_last(), b) + if !a.drop_last().contains(a.last()) && b.contains(a.last()) {
            1nat
        } else {
            0nat
        }
    }
}

proof fn lemma_common_le(a: Seq<Seq<char>>, b: Seq<Seq<char>>)
    ensures
        common_count(a, b) <= distinct_count(a),
        distinct_count(a) <= a.len(),
    decreases a.len(),
{
    if a.len() > 0 {
        lemma_common_le(a.drop_last(), b);
    }
}

fn holds(v: &Vec<String>, n: usize, x: &String) -> (r: bool)
    requires
        n <= v.len(),
    ensures
        r == views(v@).take(n as int).contains(x@),
{
    let mut i: usize = 0;
    while i < n
        invariant
            i <= n <= v.len(),
            forall|k: int| 0 <= k < i ==> views(v@)[k] != x@,
        decreases n - i,
    {
        if crate::text::str_eq(v[i].as_str(), x.as_str()) {
            proof {
                assert(views(v@).take(n as int)[i as int] == x@);
            }
            return true;
        }
        i = i + 1;
    }
    proof {
        if views(v@).take(n as int).contains(x@) {
            let k = choose|k: int| 0 <= k < n && views(v@).take(n as int)[k] == x@;
            assert(views(v@)[k] == x@);
        }
    }
    false
}

fn distinct_of(v: &Vec<String>) -> (n: usize)
    ensures
        n == distinct_count(views(v@)),
{
    let ghost s = views(v@);
    let mut n: usize = 0;
    let mut i: usize = 0;
    while i < v.len()
        invariant
            i <= v.len(),
            s == views(v@),
            n == distinct_count(s.take(i as int)),
            n <= i,
        decreases v.len() - i,
    {
        proof {
            assert(s.take(i + 1).drop_last() == s.take(i as int));
            assert(s.take(i + 1).last() == v@[i as int]@);
            lemma_common_le(s.take(i as int), s);
        }
        if !holds(v, i, &v[i]) {
            n = n + 1;
        }
        i = i + 1;
    }
    proof {
        assert(s.take(v.len() as int) == s);
    }
    n
}

/// The Jaccard overlap of two file lists as counts: the distinct files both
/// hold, and the distinct files either holds. The similarity is their ratio
/// (1 when both lists are empty).
pub fn jaccard_counts(a: &Vec<String>, b: &Vec<String>) -> (r: (usize, usize))
    requires
        a.len() + b.len() <= usize::MAX,
    ensures
        r.0 == common_count(views(a@), views(b@)),
        r.1 == distinct_count(views(a@)) + distinct_count(views(b@)) - common_count(views(a@), views(b@)),
{
    let ghost sa = views(a@);
    let ghost sb = views(b@);
    let mut inter: usize = 0;
    let mut i: usize = 0;
    while i < a.len()
        invariant
            i <= a.len(),
            sa == views(a@),
            sb == views(b@),
            inter == common_count(sa.take(i as int), sb),
            inter <= i,
        decreases a.len() - i,
    {
        proof {
            assert(sa.take(i + 1).drop_last() == sa.take(i as int));
            assert(sa.take(i + 1).last() == a@[i as int]@);
            lemma_common_le(sa.take(i as int), sb);
            assert(sb.take(b.len() as int) == sb);
        }
        if !holds(a, i, &a[i]) && holds(b, b.len(), &a[i]) {
            inter = inter + 1;
        }
        i = i + 1;
    }
    proof {
        assert(sa.take(a.len() as int) == sa);
        lemma_common_le(sa, sb);
    }
    let da = distinct_of(a);
    let db = distinct_of(b);
    proof {
        lemma_common_le(sb, sa);
    }
    (inter, da - inter + db)
}

} // verus!
