//! Reciprocal-rank fusion of the keyword, semantic and graph retrievals of an
//! architecture query. Scores are kept as exact fractions of numbers of any
//! size.

use vstd::prelude::*;

use crate::bignum::{big_add, big_mul, compare, from_u128, val};
use crate::text::{copy_string, str_eq};
use crate::tools::ingest_symbols::{str_le, str_le_exec};

verus! {

/// A decision as a retriever ranked it: its id, its title, and the key its
/// confidence orders by (a larger key is a higher confidence).
#[derive(Debug)]
pub struct RankedDecision {
    pub id: String,
    pub title: String,
    pub confidence_key: u64,
}

/// Id, title and confidence key of a ranked decision.
pub type RankedView = (Seq<char>, Seq<char>, u64);

pub open spec fn rd_view(d: RankedDecision) -> RankedView {
    (d.id@, d.title@, d.confidence_key)
}

pub open spec fn rd_views(l: Seq<RankedDecision>) -> Seq<RankedView> {
    l.map_values(|d: RankedDecision| rd_view(d))
}

/// The ids of a ranked list, in rank order.
pub open spec fn rd_ids(l: Seq<RankedView>) -> Seq<Seq<char>> {
    l.map_values(|d: RankedView| d.0)
}

/// No id occurs twice in the list.
pub open spec fn distinct_ids(l: Seq<RankedView>) -> bool {
    forall|i: int, j: int| 0 <= i < j < l.len() ==> #[trigger] l[i].0 != #[trigger] l[j].0
}

/// Some entry of the list has this id.
pub open spec fn has_id(l: Seq<RankedView>, id: Seq<char>) -> bool {
    exists|t: int| 0 <= t < l.len() && #[trigger] l[t].0 == id
}

/// The rank (zero-based position) of `id` in a list of ids, if it is there.
pub open spec fn rank_of(ids: Seq<Seq<char>>, id: Seq<char>) -> Option<nat>
    decreases ids.len(),
{
    if ids.len() == 0 {
        None
    } else {
        match rank_of(ids.drop_last(), id) {
            Some(p) => Some(p),
            None => if ids.last() == id {
                Some((ids.len() - 1) as nat)
            } else {
                None
            },
        }
    }
}

/// `f + 1 / (61 + p)` for a rank `p`, as a numerator and a denominator; `f`
/// itself when there is no rank.
pub open spec fn add_rank(f: (int, int), p: Option<nat>) -> (int, int) {
    match p {
        Some(r) => (f.0 * (61 + r) + f.1, f.1 * (61 + r)),
        None => f,
    }
}

/// `f` plus, for every position `p` of `ids` that holds `id`, one over
/// sixty-one plus `p`.
pub open spec fn list_score(ids: Seq<Seq<char>>, id: Seq<char>, f: (int, int)) -> (int, int)
    decreases ids.len(),
{
    if ids.len() == 0 {
        f
    } else {
        let before = list_score(ids.drop_last(), id, f);
        if ids.last() == id {
            add_rank(before, Some((ids.len() - 1) as nat))
        } else {
            before
        }
    }
}

/// The fused score of `id`: the sum, over every position that holds it in
/// the keyword, semantic and graph rankings (an id a ranking repeats counts
/// at each of its positions), of one over sixty-one plus that position.
pub open spec fn rrf_score(k: Seq<Seq<char>>, s: Seq<Seq<char>>, g: Seq<Seq<char>>, id: Seq<char>) -> (
    int,
    int,
) {
    list_score(g, id, list_score(s, id, list_score(k, id, (0, 1))))
}

/// Fraction `a` is greater than fraction `b` (positive denominators).
pub open spec fn score_gt(a: (int, int), b: (int, int)) -> bool {
    a.0 * b.1 > b.0 * a.1
}

/// Fractions `a` and `b` are equal (positive denominators).
pub open spec fn score_eq(a: (int, int), b: (int, int)) -> bool {
    a.0 * b.1 == b.0 * a.1
}

/// With scores `sx` and `sy`, `x` ranks before `y`: a higher score, then a
/// higher confidence, then the smaller title.
pub open spec fn before_by(sx: (int, int), sy: (int, int), x: RankedView, y: RankedView) -> bool {
    score_gt(sx, sy) || (score_eq(sx, sy) && (x.2 > y.2 || (x.2 == y.2 && !str_le(y.1, x.1))))
}

/// `x` ranks before `y` in the fusion of the rankings `k`, `s` and `g`.
pub open spec fn ranks_before(
    k: Seq<Seq<char>>,
    s: Seq<Seq<char>>,
    g: Seq<Seq<char>>,
    x: RankedView,
    y: RankedView,
) -> bool {
    before_by(rrf_score(k, s, g, x.0), rrf_score(k, s, g, y.0), x, y)
}

/// `acc` followed by the entries of `xs` whose id it does not hold yet, each
/// id with its first entry.
pub open spec fn keep_first(acc: Seq<RankedView>, xs: Seq<RankedView>) -> Seq<RankedView>
    decreases xs.len(),
{
    if xs.len() == 0 {
        acc
    } else {
        let before = keep_first(acc, xs.drop_last());
        if has_id(before, xs.last().0) {
            before
        } else {
            before.push(xs.last())
        }
    }
}

/// The decisions to rank: every id found by any retriever once, with the
/// entry of its first appearance in keyword, semantic, graph order.
pub open spec fn rrf_candidates(k: Seq<RankedView>, s: Seq<RankedView>, g: Seq<RankedView>) -> Seq<
    RankedView,
> {
    keep_first(keep_first(keep_first(Seq::empty(), k), s), g)
}

proof fn lemma_keep_first_distinct(acc: Seq<RankedView>, xs: Seq<RankedView>)
    requires
        distinct_ids(acc),
    ensures
        distinct_ids(keep_first(acc, xs)),
    decreases xs.len(),
{
    if xs.len() > 0 {
        lemma_keep_first_distinct(acc, xs.drop_last());
        let before = keep_first(acc, xs.drop_last());
        if !has_id(before, xs.last().0) {
            let after = before.push(xs.last());
            assert forall|i: int, j: int| 0 <= i < j < after.len() implies #[trigger] after[i].0
                != #[trigger] after[j].0 by {
                if j == before.len() {
                    assert(before[i] == after[i]);
                }
            }
        }
    }
}

proof fn lemma_list_score_positive(ids: Seq<Seq<char>>, id: Seq<char>, f: (int, int))
    requires
        f.0 >= 0,
        f.1 > 0,
    ensures
        list_score(ids, id, f).0 >= 0,
        list_score(ids, id, f).1 > 0,
    decreases ids.len(),
{
    if ids.len() > 0 {
        lemma_list_score_positive(ids.drop_last(), id, f);
        let b = list_score(ids.drop_last(), id, f);
        let r = (ids.len() - 1) as nat;
        assert(b.0 * (61 + r) + b.1 >= 0 && b.1 * (61 + r) > 0) by (nonlinear_arith)
            requires
                b.0 >= 0,
                b.1 > 0,
        ;
    }
}

proof fn lemma_denominator_positive(k: Seq<Seq<char>>, s: Seq<Seq<char>>, g: Seq<Seq<char>>, id: Seq<char>)
    ensures
        rrf_score(k, s, g, id).1 > 0,
{
    lemma_list_score_positive(k, id, (0, 1));
    lemma_list_score_positive(s, id, list_score(k, id, (0, 1)));
    lemma_list_score_positive(g, id, list_score(s, id, list_score(k, id, (0, 1))));
}

proof fn lemma_rank_of_found(ids: Seq<Seq<char>>, id: Seq<char>)
    ensures
        rank_of(ids, id) matches Some(p) ==> p < ids.len() && ids[p as int] == id,
        rank_of(ids, id) is None ==> !ids.contains(id),
    decreases ids.len(),
{
    if ids.len() > 0 {
        lemma_rank_of_found(ids.drop_last(), id);
        if rank_of(ids, id) is None {
            assert forall|i: int| 0 <= i < ids.len() implies ids[i] != id by {
                if i < ids.len() - 1 {
                    assert(ids.drop_last()[i] == ids[i]);
                }
            }
        }
    }
}

/// In a ranking that names each id once, the score of an id is that of its
/// one position.
proof fn lemma_list_score_distinct(ids: Seq<Seq<char>>, id: Seq<char>, f: (int, int))
    requires
        ids.no_duplicates(),
    ensures
        list_score(ids, id, f) == add_rank(f, rank_of(ids, id)),
    decreases ids.len(),
{
    if ids.len() > 0 {
        let d = ids.drop_last();
        assert(d.no_duplicates()) by {
            assert forall|i: int, j: int| 0 <= i < d.len() && 0 <= j < d.len() && i != j implies d[i] != d[j] by {
                assert(d[i] == ids[i] && d[j] == ids[j]);
            }
        }
        lemma_list_score_distinct(d, id, f);
        lemma_rank_of_found(d, id);
        if ids.last() == id {
            if let Some(p) = rank_of(d, id) {
                assert(d[p as int] == ids[p as int]);
                assert(ids[p as int] == ids[ids.len() - 1]);
            }
        }
    }
}

proof fn lemma_fraction_order(a: (int, int), b: (int, int), c: (int, int))
    requires
        a.1 > 0,
        b.1 > 0,
        c.1 > 0,
    ensures
        score_gt(a, b) && score_gt(b, c) ==> score_gt(a, c),
        score_gt(a, b) && score_eq(b, c) ==> score_gt(a, c),
        score_eq(a, b) && score_gt(b, c) ==> score_gt(a, c),
        score_eq(a, b) && score_eq(b, c) ==> score_eq(a, c),
        score_gt(a, b) ==> !score_gt(b, a) && !score_eq(a, b),
        score_eq(a, b) ==> score_eq(b, a),
        score_gt(a, b) || score_gt(b, a) || score_eq(a, b),
{
    assert(a.0 * b.1 > b.0 * a.1 && b.0 * c.1 > c.0 * b.1 ==> a.0 * c.1 > c.0 * a.1) by (nonlinear_arith)
        requires
            a.1 > 0,
            b.1 > 0,
            c.1 > 0,
    {
        if a.0 * b.1 > b.0 * a.1 && b.0 * c.1 > c.0 * b.1 {
            assert(a.0 * b.1 * c.1 > b.0 * a.1 * c.1);
            assert(b.0 * c.1 * a.1 > c.0 * b.1 * a.1);
        }
    }
    assert(a.0 * b.1 > b.0 * a.1 && b.0 * c.1 == c.0 * b.1 ==> a.0 * c.1 > c.0 * a.1) by (nonlinear_arith)
        requires
            a.1 > 0,
            b.1 > 0,
            c.1 > 0,
    {
        if a.0 * b.1 > b.0 * a.1 && b.0 * c.1 == c.0 * b.1 {
            assert(a.0 * b.1 * c.1 > b.0 * a.1 * c.1);
            assert(b.0 * c.1 * a.1 == c.0 * b.1 * a.1);
        }
    }
    assert(a.0 * b.1 == b.0 * a.1 && b.0 * c.1 > c.0 * b.1 ==> a.0 * c.1 > c.0 * a.1) by (nonlinear_arith)
        requires
            a.1 > 0,
            b.1 > 0,
            c.1 > 0,
    {
        if a.0 * b.1 == b.0 * a.1 && b.0 * c.1 > c.0 * b.1 {
            assert(a.0 * b.1 * c.1 == b.0 * a.1 * c.1);
            assert(b.0 * c.1 * a.1 > c.0 * b.1 * a.1);
        }
    }
    assert(a.0 * b.1 == b.0 * a.1 && b.0 * c.1 == c.0 * b.1 ==> a.0 * c.1 == c.0 * a.1) by (nonlinear_arith)
        requires
            a.1 > 0,
            b.1 > 0,
            c.1 > 0,
    {
        if a.0 * b.1 == b.0 * a.1 && b.0 * c.1 == c.0 * b.1 {
            assert(a.0 * b.1 * c.1 == b.0 * a.1 * c.1);
            assert(b.0 * c.1 * a.1 == c.0 * b.1 * a.1);
        }
    }
}

proof fn lemma_str_lt_trans(a: Seq<char>, b: Seq<char>, c: Seq<char>)
    requires
        !str_le(b, a),
        !str_le(c, b),
    ensures
        !str_le(c, a),
{
    crate::tools::ingest_symbols::lemma_str_leq_total_ordering();
    let le = crate::tools::ingest_symbols::str_leq();
    assert(le(a, b) || le(b, a));
    assert(le(b, c) || le(c, b));
    if le(c, a) {
        assert(le(a, b));
        assert(le(c, b));
    }
}

/// `ranks_before` is a strict order: irreflexive and transitive.
proof fn lemma_before_order(
    k: Seq<Seq<char>>,
    s: Seq<Seq<char>>,
    g: Seq<Seq<char>>,
    x: RankedView,
    y: RankedView,
    z: RankedView,
)
    ensures
        ranks_before(k, s, g, x, y) && ranks_before(k, s, g, y, z) ==> ranks_before(k, s, g, x, z),
        !ranks_before(k, s, g, x, x),
{
    let sx = rrf_score(k, s, g, x.0);
    let sy = rrf_score(k, s, g, y.0);
    let sz = rrf_score(k, s, g, z.0);
    lemma_denominator_positive(k, s, g, x.0);
    lemma_denominator_positive(k, s, g, y.0);
    lemma_denominator_positive(k, s, g, z.0);
    lemma_fraction_order(sx, sy, sz);
    lemma_fraction_order(sy, sz, sx);
    lemma_fraction_order(sx, sx, sx);
    crate::tools::ingest_symbols::lemma_str_leq_total_ordering();
    assert(crate::tools::ingest_symbols::str_leq()(x.1, x.1));
    if ranks_before(k, s, g, x, y) && ranks_before(k, s, g, y, z) {
        if score_eq(sx, sy) && score_eq(sy, sz) && x.2 == y.2 && y.2 == z.2 {
            lemma_str_lt_trans(x.1, y.1, z.1);
        }
    }
}

/// In the ranking `l`, `x` is found wherever `y` is, at a rank no worse.
pub open spec fn ranked_no_worse(l: Seq<Seq<char>>, x: Seq<char>, y: Seq<char>) -> bool {
    match (rank_of(l, x), rank_of(l, y)) {
        (_, None) => true,
        (Some(rx), Some(ry)) => rx <= ry,
        (None, Some(_)) => false,
    }
}

/// The ranking `l` found `x` and not `y`.
pub open spec fn found_only(l: Seq<Seq<char>>, x: Seq<char>, y: Seq<char>) -> bool {
    rank_of(l, x) is Some && rank_of(l, y) is None
}

proof fn lemma_add_rank_step(f: (int, int), g: (int, int), px: Option<nat>, py: Option<nat>)
    requires
        f.0 >= 0,
        g.0 >= 0,
        f.1 > 0,
        g.1 > 0,
        f.0 * g.1 >= g.0 * f.1,
        match (px, py) {
            (_, None) => true,
            (Some(rx), Some(ry)) => rx <= ry,
            (None, Some(_)) => false,
        },
    ensures
        add_rank(f, px).0 >= 0,
        add_rank(g, py).0 >= 0,
        add_rank(f, px).1 > 0,
        add_rank(g, py).1 > 0,
        add_rank(f, px).0 * add_rank(g, py).1 >= add_rank(g, py).0 * add_rank(f, px).1,
        score_gt(f, g) ==> score_gt(add_rank(f, px), add_rank(g, py)),
        px is Some && py is None ==> score_gt(add_rank(f, px), add_rank(g, py)),
{
    match (px, py) {
        (None, None) => {},
        (Some(rx), None) => {
            let d = 61 + rx;
            assert((f.0 * d + f.1) * g.1 > g.0 * (f.1 * d) && f.0 * d + f.1 >= 0 && f.1 * d > 0) by (nonlinear_arith)
                requires
                    f.0 >= 0,
                    g.0 >= 0,
                    f.1 > 0,
                    g.1 > 0,
                    f.0 * g.1 >= g.0 * f.1,
                    d >= 61,
            {
                assert(f.0 * g.1 * d >= g.0 * f.1 * d);
                assert(f.1 * g.1 > 0);
            }
        },
        (Some(rx), Some(ry)) => {
            let dx = 61 + rx;
            let dy = 61 + ry;
            assert((f.0 * dx + f.1) * (g.1 * dy) >= (g.0 * dy + g.1) * (f.1 * dx)) by (nonlinear_arith)
                requires
                    f.0 >= 0,
                    g.0 >= 0,
                    f.1 > 0,
                    g.1 > 0,
                    f.0 * g.1 >= g.0 * f.1,
                    61 <= dx <= dy,
            {
                assert(f.0 * g.1 * (dx * dy) >= g.0 * f.1 * (dx * dy));
                assert(f.1 * g.1 * dy >= f.1 * g.1 * dx);
            }
            assert(f.0 * g.1 > g.0 * f.1 ==> (f.0 * dx + f.1) * (g.1 * dy) > (g.0 * dy + g.1) * (f.1 * dx))
                by (nonlinear_arith)
                requires
                    f.0 >= 0,
                    g.0 >= 0,
                    f.1 > 0,
                    g.1 > 0,
                    61 <= dx <= dy,
            {
                if f.0 * g.1 > g.0 * f.1 {
                    assert(f.0 * g.1 * (dx * dy) > g.0 * f.1 * (dx * dy));
                    assert(f.1 * g.1 * dy >= f.1 * g.1 * dx);
                }
            }
            assert(f.0 * dx + f.1 >= 0 && f.1 * dx > 0 && g.0 * dy + g.1 >= 0 && g.1 * dy > 0) by (nonlinear_arith)
                requires
                    f.0 >= 0,
                    g.0 >= 0,
                    f.1 > 0,
                    g.1 > 0,
                    61 <= dx <= dy,
            ;
        },
        (None, Some(_)) => {},
    }
}

/// Reciprocal-rank fusion rewards agreement: where no ranking repeats an id,
/// a decision that every ranking places at least as high as another, and that
/// some ranking found while it missed the other, has the higher fused score, and so ranks first
/// whatever the confidences and titles.
pub proof fn law_rrf_rewards_agreement(
    k: Seq<Seq<char>>,
    s: Seq<Seq<char>>,
    g: Seq<Seq<char>>,
    x: RankedView,
    y: RankedView,
)
    requires
        k.no_duplicates(),
        s.no_duplicates(),
        g.no_duplicates(),
        ranked_no_worse(k, x.0, y.0),
        ranked_no_worse(s, x.0, y.0),
        ranked_no_worse(g, x.0, y.0),
        found_only(k, x.0, y.0) || found_only(s, x.0, y.0) || found_only(g, x.0, y.0),
    ensures
        score_gt(rrf_score(k, s, g, x.0), rrf_score(k, s, g, y.0)),
        ranks_before(k, s, g, x, y),
{
    let z = (0int, 1int);
    lemma_list_score_distinct(k, x.0, z);
    lemma_list_score_distinct(k, y.0, z);
    lemma_list_score_distinct(s, x.0, list_score(k, x.0, z));
    lemma_list_score_distinct(s, y.0, list_score(k, y.0, z));
    lemma_list_score_distinct(g, x.0, list_score(s, x.0, list_score(k, x.0, z)));
    lemma_list_score_distinct(g, y.0, list_score(s, y.0, list_score(k, y.0, z)));
    assert(z.0 * z.1 >= z.0 * z.1);
    lemma_add_rank_step(z, z, rank_of(k, x.0), rank_of(k, y.0));
    let fx1 = add_rank(z, rank_of(k, x.0));
    let fy1 = add_rank(z, rank_of(k, y.0));
    lemma_add_rank_step(fx1, fy1, rank_of(s, x.0), rank_of(s, y.0));
    let fx2 = add_rank(fx1, rank_of(s, x.0));
    let fy2 = add_rank(fy1, rank_of(s, y.0));
    lemma_add_rank_step(fx2, fy2, rank_of(g, x.0), rank_of(g, y.0));
}

// ---------------------------------------------------------------------------
// Executable parts
// ---------------------------------------------------------------------------

fn copy_ranked(d: &RankedDecision) -> (r: RankedDecision)
    ensures
        rd_view(r) == rd_view(*d),
{
    RankedDecision { id: copy_string(&d.id), title: copy_string(&d.title), confidence_key: d.confidence_key }
}

fn has_id_exec(l: &Vec<RankedDecision>, id: &str) -> (b: bool)
    ensures
        b == has_id(rd_views(l@), id@),
{
    let ghost v = rd_views(l@);
    let mut found = false;
    let mut t: usize = 0;
    while t < l.len()
        invariant
            t <= l.len(),
            v == rd_views(l@),
            found <==> exists|u: int| 0 <= u < t && #[trigger] v[u].0 == id@,
        decreases l.len() - t,
    {
        proof {
            assert(v[t as int] == rd_view(l@[t as int]));
        }
        let ghost was = found;
        let hit = str_eq(l[t].id.as_str(), id);
        if hit {
            found = true;
        }
        proof {
            if exists|u: int| 0 <= u < t + 1 && #[trigger] v[u].0 == id@ {
                let u = choose|u: int| 0 <= u < t + 1 && #[trigger] v[u].0 == id@;
                if u == t {
                    assert(hit);
                } else {
                    assert(was);
                }
            }
            if hit {
                assert(v[t as int].0 == id@);
            }
            if was {
                let u = choose|u: int| 0 <= u < t && #[trigger] v[u].0 == id@;
                assert(v[u].0 == id@);
            }
        }
        t = t + 1;
    }
    found
}

fn absorb(acc: &mut Vec<RankedDecision>, xs: &Vec<RankedDecision>)
    ensures
        rd_views(final(acc)@) == keep_first(rd_views(old(acc)@), rd_views(xs@)),
{
    let ghost a0 = rd_views(acc@);
    let ghost xv = rd_views(xs@);
    let mut i: usize = 0;
    while i < xs.len()
        invariant
            i <= xs.len(),
            xv == rd_views(xs@),
            rd_views(acc@) == keep_first(a0, xv.take(i as int)),
        decreases xs.len() - i,
    {
        proof {
            assert(xv.take(i + 1).drop_last() == xv.take(i as int));
            assert(xv.take(i + 1).last() == xv[i as int]);
            assert(xv[i as int] == rd_view(xs@[i as int]));
        }
        let present = has_id_exec(acc, xs[i].id.as_str());
        if !present {
            let c = copy_ranked(&xs[i]);
            let ghost before = acc@;
            acc.push(c);
            proof {
                assert(rd_views(acc@) == rd_views(before).push(rd_view(c)));
            }
        }
        i = i + 1;
    }
    proof {
        assert(xv.take(xs.len() as int) == xv);
    }
}

/// A fraction of numbers of any size, read as integers.
pub open spec fn big_frac(f: (Vec<u32>, Vec<u32>)) -> (int, int) {
    (val(f.0@) as int, val(f.1@) as int)
}

/// `f` plus the reciprocal ranks of `id` in `l` (`list_score`).
fn add_list(l: &Vec<RankedDecision>, id: &str, f: (Vec<u32>, Vec<u32>)) -> (r: (Vec<u32>, Vec<u32>))
    ensures
        big_frac(r) == list_score(rd_ids(rd_views(l@)), id@, big_frac(f)),
{
    let ghost ids = rd_ids(rd_views(l@));
    let ghost f0 = big_frac(f);
    let (mut num, mut den) = f;
    let mut t: usize = 0;
    proof {
        assert(ids.take(0) =~= Seq::<Seq<char>>::empty());
    }
    while t < l.len()
        invariant
            t <= l@.len(),
            ids == rd_ids(rd_views(l@)),
            ids.len() == l@.len(),
            (val(num@) as int, val(den@) as int) == list_score(ids.take(t as int), id@, f0),
        decreases l.len() - t,
    {
        proof {
            assert(ids.take(t + 1).drop_last() == ids.take(t as int));
            assert(ids.take(t + 1).last() == ids[t as int]);
            assert(ids[t as int] == l@[t as int].id@);
        }
        if str_eq(l[t].id.as_str(), id) {
            let d = from_u128(61 + t as u128);
            let nd = big_mul(&num, &d);
            num = big_add(&nd, &den);
            den = big_mul(&den, &d);
        }
        t = t + 1;
    }
    proof {
        assert(ids.take(l.len() as int) == ids);
    }
    (num, den)
}

/// The fused score of `id` (`rrf_score`).
fn score_exec(k: &Vec<RankedDecision>, s: &Vec<RankedDecision>, g: &Vec<RankedDecision>, id: &str) -> (r: (
    Vec<u32>,
    Vec<u32>,
))
    ensures
        big_frac(r) == rrf_score(rd_ids(rd_views(k@)), rd_ids(rd_views(s@)), rd_ids(rd_views(g@)), id@),
{
    let zero = from_u128(0);
    let one = from_u128(1);
    let a = add_list(k, id, (zero, one));
    let b = add_list(s, id, a);
    add_list(g, id, b)
}

fn before_exec(x: &RankedDecision, sx: &(Vec<u32>, Vec<u32>), y: &RankedDecision, sy: &(Vec<u32>, Vec<u32>)) -> (r:
    bool)
    ensures
        r == before_by(big_frac(*sx), big_frac(*sy), rd_view(*x), rd_view(*y)),
{
    let lhs = big_mul(&sx.0, &sy.1);
    let rhs = big_mul(&sy.0, &sx.1);
    let c = compare(&lhs, &rhs);
    if c == 1 {
        return true;
    }
    if c == -1 {
        return false;
    }
    if x.confidence_key != y.confidence_key {
        return x.confidence_key > y.confidence_key;
    }
    !str_le_exec(y.title.as_str(), x.title.as_str())
}

/// Fuses the keyword, semantic and graph rankings by reciprocal rank. Every
/// decision any of them found is a candidate once, with the entry of its
/// first appearance; it scores the sum of `1 / (61 + rank)` over every rank
/// at which the rankings hold it. The candidates come out by score, then by confidence, then by
/// title, at most `top_k` of them: those left out rank no higher than any that
/// came out.
pub fn rrf_merge(
    keyword: &Vec<RankedDecision>,
    semantic: &Vec<RankedDecision>,
    graph: &Vec<RankedDecision>,
    top_k: usize,
) -> (r: Vec<RankedDecision>)
    ensures
        ({
            let k = rd_views(keyword@);
            let s = rd_views(semantic@);
            let g = rd_views(graph@);
            let c = rrf_candidates(k, s, g);
            let out = rd_views(r@);
            &&& out.len() == (if top_k < c.len() { top_k as nat } else { c.len() })
            &&& forall|i: int| 0 <= i < out.len() ==> c.contains(#[trigger] out[i])
            &&& distinct_ids(out)
            &&& forall|i: int, j: int|
                0 <= i < j < out.len() ==> !ranks_before(
                    rd_ids(k),
                    rd_ids(s),
                    rd_ids(g),
                    #[trigger] out[j],
                    #[trigger] out[i],
                )
            &&& forall|x: RankedView, i: int|
                #![trigger c.contains(x), out[i]]
                c.contains(x) && !has_id(out, x.0) && 0 <= i < out.len() ==> !ranks_before(
                    rd_ids(k),
                    rd_ids(s),
                    rd_ids(g),
                    x,
                    out[i],
                )
        }),
{
    let ghost ki = rd_ids(rd_views(keyword@));
    let ghost si = rd_ids(rd_views(semantic@));
    let ghost gi = rd_ids(rd_views(graph@));
    let mut cands: Vec<RankedDecision> = Vec::new();
    proof {
        assert(rd_views(cands@) =~= Seq::<RankedView>::empty());
    }
    absorb(&mut cands, keyword);
    absorb(&mut cands, semantic);
    absorb(&mut cands, graph);
    let ghost cv = rd_views(cands@);
    proof {
        let e = Seq::<RankedView>::empty();
        let k1 = keep_first(e, rd_views(keyword@));
        let k2 = keep_first(k1, rd_views(semantic@));
        lemma_keep_first_distinct(e, rd_views(keyword@));
        lemma_keep_first_distinct(k1, rd_views(semantic@));
        lemma_keep_first_distinct(k2, rd_views(graph@));
    }
    let n = cands.len();
    let mut scores: Vec<(Vec<u32>, Vec<u32>)> = Vec::new();
    let mut i: usize = 0;
    while i < n
        invariant
            i <= n,
            n == cands@.len(),
            cv == rd_views(cands@),
            ki == rd_ids(rd_views(keyword@)),
            si == rd_ids(rd_views(semantic@)),
            gi == rd_ids(rd_views(graph@)),
            scores@.len() == i,
            forall|j: int|
                0 <= j < i ==> big_frac(#[trigger] scores@[j]) == rrf_score(ki, si, gi, cv[j].0),
        decreases n - i,
    {
        let sc = score_exec(keyword, semantic, graph, cands[i].id.as_str());
        proof {
            assert(cv[i as int] == rd_view(cands@[i as int]));
        }
        scores.push(sc);
        i = i + 1;
    }
    let mut remaining: Vec<usize> = Vec::new();
    let mut m: usize = 0;
    while m < n
        invariant
            m <= n,
            remaining@ == Seq::new(m as nat, |u: int| u as usize),
        decreases n - m,
    {
        remaining.push(m);
        m = m + 1;
    }
    let mut out: Vec<RankedDecision> = Vec::new();
    let ghost mut sel: Seq<int> = Seq::empty();
    proof {
        assert forall|x: int| 0 <= x < n implies #[trigger] sel.contains(x) || remaining@.contains(x as usize) by {
            assert(remaining@[x] == x as usize);
        }
    }
    while out.len() < top_k && remaining.len() > 0
        invariant
            n == cands@.len(),
            cv == rd_views(cands@),
            distinct_ids(cv),
            scores@.len() == n,
            forall|j: int|
                0 <= j < n ==> big_frac(#[trigger] scores@[j]) == rrf_score(ki, si, gi, cv[j].0),
            out@.len() + remaining@.len() == n,
            out@.len() <= top_k,
            sel.len() == out@.len(),
            forall|t: int|
                0 <= t < sel.len() ==> 0 <= #[trigger] sel[t] < n && rd_view(out@[t]) == cv[sel[t]],
            forall|t: int| 0 <= t < remaining@.len() ==> #[trigger] remaining@[t] < n,
            forall|t: int, u: int| 0 <= t < u < remaining@.len() ==> #[trigger] remaining@[t] != #[trigger] remaining@[u],
            forall|t: int, u: int| 0 <= t < sel.len() && 0 <= u < remaining@.len() ==> #[trigger] sel[t] != #[trigger] remaining@[u] as int,
            forall|t: int, u: int| 0 <= t < u < sel.len() ==> #[trigger] sel[t] != #[trigger] sel[u],
            forall|x: int| 0 <= x < n ==> #[trigger] sel.contains(x) || remaining@.contains(x as usize),
            forall|i: int, j: int|
                0 <= i < j < out@.len() ==> !ranks_before(ki, si, gi, #[trigger] rd_view(out@[j]), #[trigger] rd_view(out@[i])),
            forall|t: int, i: int|
                0 <= t < remaining@.len() && 0 <= i < out@.len() ==> !ranks_before(
                    ki,
                    si,
                    gi,
                    cv[#[trigger] remaining@[t] as int],
                    #[trigger] rd_view(out@[i]),
                ),
        decreases remaining@.len(),
    {
        let mut b: usize = 0;
        let mut t: usize = 1;
        proof {
            lemma_before_order(ki, si, gi, cv[remaining@[0] as int], cv[remaining@[0] as int], cv[remaining@[0] as int]);
        }
        while t < remaining.len()
            invariant
                0 <= b < t <= remaining@.len(),
                n == cands@.len(),
                cv == rd_views(cands@),
                scores@.len() == n,
                forall|j: int|
                    0 <= j < n ==> big_frac(#[trigger] scores@[j]) == rrf_score(ki, si, gi, cv[j].0),
                forall|u: int| 0 <= u < remaining@.len() ==> #[trigger] remaining@[u] < n,
                forall|u: int|
                    0 <= u < t ==> !ranks_before(ki, si, gi, cv[#[trigger] remaining@[u] as int], cv[remaining@[b as int] as int]),
            decreases remaining@.len() - t,
        {
            let x = remaining[t];
            let y = remaining[b];
            let better = before_exec(&cands[x], &scores[x], &cands[y], &scores[y]);
            proof {
                assert(cv[x as int] == rd_view(cands@[x as int]));
                assert(cv[y as int] == rd_view(cands@[y as int]));
                assert(better == ranks_before(ki, si, gi, cv[x as int], cv[y as int]));
            }
            if better {
                proof {
                    assert forall|u: int|
                        0 <= u < t + 1 implies !ranks_before(ki, si, gi, cv[#[trigger] remaining@[u] as int], cv[x as int]) by {
                        lemma_before_order(ki, si, gi, cv[remaining@[u] as int], cv[x as int], cv[y as int]);
                    }
                }
                b = t;
            }
            t = t + 1;
        }
        let chosen = remaining[b];
        let c = copy_ranked(&cands[chosen]);
        proof {
            assert(cv[chosen as int] == rd_view(cands@[chosen as int]));
        }
        let ghost old_out = out@;
        let ghost old_rem = remaining@;
        out.push(c);
        remaining.remove(b);
        let ghost old_sel = sel;
        proof {
            sel = sel.push(chosen as int);
            assert forall|u: int| 0 <= u < b implies #[trigger] remaining@[u] == old_rem[u] by {}
            assert forall|u: int| b <= u < remaining@.len() implies #[trigger] remaining@[u] == old_rem[u + 1] by {}
            assert forall|t2: int| 0 <= t2 < sel.len() implies 0 <= #[trigger] sel[t2] < n && rd_view(out@[t2]) == cv[sel[t2]] by {
                if t2 < sel.len() - 1 {
                    assert(out@[t2] == old_out[t2]);
                }
            }
            assert forall|x: int| 0 <= x < n implies #[trigger] sel.contains(x) || remaining@.contains(x as usize) by {
                if x == chosen as int {
                    assert(sel[sel.len() - 1] == x);
                } else if old_sel.contains(x) {
                    let w = choose|w: int| 0 <= w < old_sel.len() && old_sel[w] == x;
                    assert(sel[w] == x);
                } else {
                    assert(old_rem.contains(x as usize));
                    let w = choose|w: int| 0 <= w < old_rem.len() && old_rem[w] == x as usize;
                    if w < b {
                        assert(remaining@[w] == x as usize);
                    } else {
                        assert(w != b);
                        assert(remaining@[w - 1] == x as usize);
                    }
                }
            }
            assert forall|t1: int, u: int| 0 <= t1 < u < sel.len() implies #[trigger] sel[t1] != #[trigger] sel[u] by {
                if u == sel.len() - 1 {
                    assert(old_rem[b as int] == chosen);
                }
            }
            assert forall|t1: int, u: int| 0 <= t1 < sel.len() && 0 <= u < remaining@.len() implies #[trigger] sel[t1] != #[trigger] remaining@[u] as int by {
                if t1 == sel.len() - 1 {
                    if u < b {
                        assert(remaining@[u] == old_rem[u]);
                    } else {
                        assert(remaining@[u] == old_rem[u + 1]);
                    }
                } else {
                    if u < b {
                        assert(remaining@[u] == old_rem[u]);
                    } else {
                        assert(remaining@[u] == old_rem[u + 1]);
                    }
                }
            }
            assert forall|t1: int, u: int| 0 <= t1 < u < remaining@.len() implies #[trigger] remaining@[t1] != #[trigger] remaining@[u] by {
                let a1 = if t1 < b { t1 } else { t1 + 1 };
                let a2 = if u < b { u } else { u + 1 };
                assert(remaining@[t1] == old_rem[a1]);
                assert(remaining@[u] == old_rem[a2]);
            }
            assert forall|i1: int, j1: int|
                0 <= i1 < j1 < out@.len() implies !ranks_before(ki, si, gi, #[trigger] rd_view(out@[j1]), #[trigger] rd_view(out@[i1])) by {
                assert(out@[i1] == old_out[i1]);
                if j1 < out@.len() - 1 {
                    assert(out@[j1] == old_out[j1]);
                } else {
                    assert(old_rem[b as int] == chosen);
                    assert(rd_view(out@[j1]) == cv[old_rem[b as int] as int]);
                }
            }
            assert forall|t1: int, i1: int|
                0 <= t1 < remaining@.len() && 0 <= i1 < out@.len() implies !ranks_before(
                    ki,
                    si,
                    gi,
                    cv[#[trigger] remaining@[t1] as int],
                    #[trigger] rd_view(out@[i1]),
                ) by {
                let a1 = if t1 < b { t1 } else { t1 + 1 };
                assert(remaining@[t1] == old_rem[a1]);
                if i1 < out@.len() - 1 {
                    assert(out@[i1] == old_out[i1]);
                } else {
                    assert(rd_view(out@[i1]) == cv[chosen as int]);
                }
            }
        }
    }
    proof {
        let k = rd_views(keyword@);
        let s = rd_views(semantic@);
        let g = rd_views(graph@);
        let cc = rrf_candidates(k, s, g);
        assert(cc == cv);
        let ov = rd_views(out@);
        assert forall|i1: int| 0 <= i1 < ov.len() implies cc.contains(#[trigger] ov[i1]) by {
            assert(ov[i1] == rd_view(out@[i1]));
            assert(cv[sel[i1]] == ov[i1]);
        }
        assert forall|i1: int, j1: int| 0 <= i1 < j1 < ov.len() implies #[trigger] ov[i1].0 != #[trigger] ov[j1].0 by {
            assert(ov[i1] == cv[sel[i1]]);
            assert(ov[j1] == cv[sel[j1]]);
            if sel[i1] < sel[j1] {
                assert(cv[sel[i1]].0 != cv[sel[j1]].0);
            } else {
                assert(cv[sel[j1]].0 != cv[sel[i1]].0);
            }
        }
        assert forall|i1: int, j1: int| 0 <= i1 < j1 < ov.len() implies !ranks_before(
            rd_ids(k), rd_ids(s), rd_ids(g), #[trigger] ov[j1], #[trigger] ov[i1]) by {
            assert(ov[i1] == rd_view(out@[i1]));
            assert(ov[j1] == rd_view(out@[j1]));
        }
        assert forall|x: RankedView, i1: int|
            #![trigger cc.contains(x), ov[i1]]
            cc.contains(x) && !has_id(ov, x.0) && 0 <= i1 < ov.len() implies !ranks_before(
            rd_ids(k), rd_ids(s), rd_ids(g), x, ov[i1]) by {
            let w = choose|w: int| 0 <= w < cc.len() && cc[w] == x;
            assert(ov[i1] == rd_view(out@[i1]));
            if sel.contains(w) {
                let z = choose|z: int| 0 <= z < sel.len() && sel[z] == w;
                assert(ov[z] == cv[w]);
                assert(ov[z].0 == x.0);
            } else {
                assert(remaining@.contains(w as usize));
                let z = choose|z: int| 0 <= z < remaining@.len() && remaining@[z] == w as usize;
                assert(cv[remaining@[z] as int] == x);
            }
        }
    }
    out
}

} // verus!
