//! Properties of the library as a whole: what holds across its functions, of
//! every input and every state.

use vstd::prelude::*;
use vstd::relations::sorted_by;

use crate::scan::{find_from, join, lines, lines_from, starts_with};
use crate::text::{decimal, is_ws, trim_end_spec, trim_spec, trim_start_spec};
use crate::tools::architecture_query::snippet_spec;
use crate::tools::freshness::{
    all_fresh, all_stale_relocated, count_disposition, count_unprovable, disposition_spec, head_ref_spec,
    parse_mode_spec, stale_positions, working_tree, AnchorState, ClaimEvidence, Disposition, Freshness, HeadRef,
    StaleClaim,
};
use crate::tools::check_consistency::{cycle_at, SupersessionPair};
use crate::tools::record_episode::{lemma_first_position, placement, EpisodeStep};
use crate::tools::generate_adr::{normalize_parts, split_newlines, PathPart};
use crate::tools::ingest_symbols::{
    best_among, best_label, communities, dedup_seq, label_of, lemma_dedup_members, lemma_dedup_sorted_increasing,
    lemma_str_leq_total_ordering, members_of, node_leq, own_labels, propagate, round_prefix, str_le, str_leq,
    update_node,
};
use crate::tools::inspect_change::{assessment, collected, has_key, ConstraintRef, DecisionRef, ViolationView};
use crate::tools::json_utils::{extract_spec, fence, strip_fences_spec, strip_from};
use crate::tools::sync_commits::{
    absent_keys, absent_positions, adr_ref_of, digits_value, find_adr, leading_digits, pad4, refs_from, skip_dashes,
};
use crate::tools::sync_incremental::{changed_list, forward_slashes};
use crate::tools::synthesize_adr_leads::{common_count, distinct_count};
use crate::tools::verify_evidence::{find_span_spec, scan_window, span_from};
use crate::tools::verify_index_integrity::{claims_in, counts_agree, keys_missing, keys_of, projection_key_spec};

verus! {

// ---------------------------------------------------------------------------
// Freshness
// ---------------------------------------------------------------------------

/// A claim is `unaffected` exactly when it has anchors and all of them are
/// fresh; `affected` exactly when it has anchors, some are stale, and every
/// stale one was relocated; `unprovable` exactly when it has no anchors or a
/// stale anchor could not be found again.
pub proof fn law_disposition_trichotomy(states: Seq<AnchorState>)
    ensures
        disposition_spec(states) == Disposition::Unaffected <==> states.len() > 0 && all_fresh(states),
        disposition_spec(states) == Disposition::Affected <==> states.len() > 0 && !all_fresh(states)
            && all_stale_relocated(states),
        disposition_spec(states) == Disposition::Unprovable <==> states.len() == 0 || !all_stale_relocated(
            states,
        ),
{
    if states.len() > 0 && !all_stale_relocated(states) && all_fresh(states) {
        let i = choose|i: int|
            0 <= i < states.len() && #[trigger] states[i].verification.freshness == Freshness::Stale
                && !states[i].verification.relocated_locator.is_some();
        assert(states[i].verification.freshness == Freshness::Fresh);
    }
}


/// Every claim falls under exactly one disposition: the three counts of a
/// manifest add up to the number of claims.
pub proof fn law_dispositions_partition_claims(claims: Seq<Vec<AnchorState>>)
    ensures
        count_disposition(claims, Disposition::Unaffected) + count_disposition(claims, Disposition::Affected)
            + count_disposition(claims, Disposition::Unprovable) == claims.len(),
    decreases claims.len(),
{
    if claims.len() > 0 {
        law_dispositions_partition_claims(claims.drop_last());
    }
}

/// A manifest reports a claim as stale exactly when the claim is not
/// `unaffected`, once, in the order of the claims; so strict mode, which
/// refuses when a manifest reports a stale claim, refuses exactly the views
/// with a claim that is not `unaffected`.
pub proof fn law_stale_claims_are_the_drifted_ones(claims: Seq<ClaimEvidence>)
    ensures
        forall|k: int|
            0 <= k < claims.len() ==> (stale_positions(claims).contains(k) <==> disposition_spec(
                #[trigger] claims[k].1@,
            ) != Disposition::Unaffected),
        forall|k: int|
            0 <= k < stale_positions(claims).len() ==> 0 <= #[trigger] stale_positions(claims)[k] < claims.len(),
        forall|a: int, b: int|
            0 <= a < b < stale_positions(claims).len() ==> #[trigger] stale_positions(claims)[a]
                < #[trigger] stale_positions(claims)[b],
        stale_positions(claims).len() > 0 <==> exists|k: int|
            0 <= k < claims.len() && disposition_spec(#[trigger] claims[k].1@) != Disposition::Unaffected,
    decreases claims.len(),
{
    if claims.len() > 0 {
        let init = claims.drop_last();
        law_stale_claims_are_the_drifted_ones(init);
        let r = stale_positions(init);
        let n = claims.len() - 1;
        if disposition_spec(claims.last().1@) != Disposition::Unaffected {
            let q = r.push(n);
            assert forall|k: int| 0 <= k < q.len() implies 0 <= #[trigger] q[k] < claims.len() by {
                if k < r.len() {
                    assert(q[k] == r[k]);
                }
            }
            assert forall|a: int, b: int| 0 <= a < b < q.len() implies #[trigger] q[a] < #[trigger] q[b] by {
                assert(q[a] == r[a]);
                if b < r.len() {
                    assert(q[b] == r[b]);
                }
            }
        }
        assert forall|k: int| 0 <= k < claims.len() implies (stale_positions(claims).contains(k)
            <==> disposition_spec(#[trigger] claims[k].1@) != Disposition::Unaffected) by {
            if k < n {
                assert(init[k] == claims[k]);
                if disposition_spec(claims.last().1@) != Disposition::Unaffected {
                    let q = r.push(n);
                    if q.contains(k) {
                        let w = choose|w: int| 0 <= w < q.len() && q[w] == k;
                        if w < r.len() {
                            assert(r[w] == k);
                        }
                    }
                    if r.contains(k) {
                        let w = choose|w: int| 0 <= w < r.len() && r[w] == k;
                        assert(q[w] == k);
                    }
                }
            } else {
                if disposition_spec(claims.last().1@) != Disposition::Unaffected {
                    assert(r.push(n)[r.len() as int] == n);
                } else {
                    if r.contains(n) {
                        let w = choose|w: int| 0 <= w < r.len() && r[w] == n;
                        assert(r[w] < n);
                    }
                }
            }
        }
        if stale_positions(claims).len() > 0 {
            let k = stale_positions(claims)[0];
            assert(stale_positions(claims).contains(k));
            if disposition_spec(claims.last().1@) != Disposition::Unaffected {
                assert(disposition_spec(claims[n].1@) != Disposition::Unaffected);
            } else {
                assert(r.len() > 0);
                assert(r.contains(r[0]));
                assert(0 <= r[0] < n);
                assert(init[r[0]] == claims[r[0]]);
            }
        }
        if exists|k: int| 0 <= k < claims.len() && disposition_spec(#[trigger] claims[k].1@) != Disposition::Unaffected {
            let k = choose|k: int| 0 <= k < claims.len() && disposition_spec(#[trigger] claims[k].1@) != Disposition::Unaffected;
            assert(stale_positions(claims).contains(k));
        }
    }
}

/// The reason of a rebuild obligation counts every stale claim once: its
/// unprovable claims are among the stale ones, and the rest are affected.
pub proof fn law_obligation_counts_stale_claims(claims: Seq<StaleClaim>)
    ensures
        count_unprovable(claims) <= claims.len(),
    decreases claims.len(),
{
    if claims.len() > 0 {
        law_obligation_counts_stale_claims(claims.drop_last());
    }
}

/// The commit read back from a resolved `HEAD` is the commit it was
/// resolved from; outside a git repository there is none.
pub proof fn law_head_round_trip(commit: Option<Seq<char>>, h: HeadRef)
    requires
        head_ref_spec(commit, h),
        commit matches Some(c) ==> c != working_tree(),
    ensures
        (if h.repo_commit@ == working_tree() { None } else { Some(h.repo_commit@) }) == commit,
{
}

proof fn lemma_trim_start_idempotent(s: Seq<char>)
    ensures
        trim_start_spec(trim_start_spec(s)) == trim_start_spec(s),
        trim_start_spec(s).len() > 0 ==> !is_ws(trim_start_spec(s)[0]),
    decreases s.len(),
{
    if s.len() > 0 && is_ws(s[0]) {
        lemma_trim_start_idempotent(s.drop_first());
    }
}

proof fn lemma_trim_end_idempotent(s: Seq<char>)
    ensures
        trim_end_spec(trim_end_spec(s)) == trim_end_spec(s),
        trim_end_spec(s).len() > 0 ==> !is_ws(trim_end_spec(s).last()),
    decreases s.len(),
{
    if s.len() > 0 && is_ws(s.last()) {
        lemma_trim_end_idempotent(s.drop_last());
    }
}

proof fn lemma_trim_end_keeps_start(s: Seq<char>)
    requires
        s.len() > 0 ==> !is_ws(s[0]),
    ensures
        trim_end_spec(s).len() > 0 ==> !is_ws(trim_end_spec(s)[0]),
        trim_end_spec(s).len() > 0 ==> trim_end_spec(s)[0] == s[0],
    decreases s.len(),
{
    if s.len() > 0 && is_ws(s.last()) {
        if s.len() > 1 {
            lemma_trim_end_keeps_start(s.drop_last());
        }
    }
}

proof fn lemma_no_leading_ws(s: Seq<char>)
    requires
        s.len() > 0 ==> !is_ws(s[0]),
    ensures
        trim_start_spec(s) == s,
{
}

proof fn lemma_trim_idempotent(s: Seq<char>)
    ensures
        trim_spec(trim_spec(s)) == trim_spec(s),
{
    let t = trim_start_spec(s);
    lemma_trim_start_idempotent(s);
    lemma_trim_end_keeps_start(t);
    let u = trim_end_spec(t);
    lemma_no_leading_ws(u);
    lemma_trim_end_idempotent(t);
}

/// The verification mode does not depend on whitespace around the word.
pub proof fn law_mode_ignores_surrounding_whitespace(s: Seq<char>)
    ensures
        parse_mode_spec(Some(trim_spec(s))) == parse_mode_spec(Some(s)),
{
    lemma_trim_idempotent(s);
}

// ---------------------------------------------------------------------------
// Model replies
// ---------------------------------------------------------------------------

/// A reply that already is a bare JSON array (no code fence, no surrounding
/// whitespace) comes back unchanged.
pub proof fn law_bare_array_passes_through(s: Seq<char>, fuel: nat)
    requires
        find_from(s, fence(), 0) is None,
        s.len() > 0,
        s[0] == '[',
        !is_ws(s.last()),
    ensures
        extract_spec(s, fuel) == s,
{
    assert(strip_from(s, 0) == s.subrange(0, s.len() as int));
    assert(s.subrange(0, s.len() as int) == s);
    lemma_no_leading_ws(s);
    assert(trim_end_spec(s) == s);
    assert(strip_fences_spec(s) == s);
    assert(starts_with(s, seq!['['])) by {
        assert(s.take(1) == seq!['[']);
    }
}

// ---------------------------------------------------------------------------
// Communities
// ---------------------------------------------------------------------------

/// The labels are a map over exactly the given nodes whose values are node
/// ids.
pub open spec fn labels_over(lab: Map<u128, u128>, nodes: Seq<u128>) -> bool {
    &&& forall|n: u128| #[trigger] lab.contains_key(n) <==> nodes.contains(n)
    &&& forall|n: u128| #[trigger] lab.contains_key(n) ==> nodes.contains(lab[n])
}

proof fn lemma_best_among_is_label(lab: Map<u128, u128>, nbrs: Seq<u128>, k: int)
    ensures
        best_among(lab, nbrs, k) matches Some(b) ==> exists|x: u128| #[trigger] lab.contains_key(x) && lab[x] == b,
    decreases k,
{
    if 0 < k <= nbrs.len() {
        lemma_best_among_is_label(lab, nbrs, k - 1);
        let x = nbrs[k - 1];
        if lab.contains_key(x) {
            assert(lab.contains_key(x) && lab[x] == lab[x]);
        }
    }
}

proof fn lemma_update_keeps_labels_over(lab: Map<u128, u128>, nodes: Seq<u128>, node: u128, edges: Seq<(u128, u128)>)
    requires
        labels_over(lab, nodes),
        nodes.contains(node),
    ensures
        labels_over(update_node(lab, node, edges).0, nodes),
{
    lemma_best_among_is_label(lab, crate::tools::ingest_symbols::neighbors(edges, node), crate::tools::ingest_symbols::neighbors(edges, node).len() as int);
    let r = update_node(lab, node, edges).0;
    assert forall|n: u128| #[trigger] r.contains_key(n) implies nodes.contains(r[n]) by {
        if n == node && r != lab {
            let b = best_label(lab, crate::tools::ingest_symbols::neighbors(edges, node))->0;
            let x = choose|x: u128| #[trigger] lab.contains_key(x) && lab[x] == b;
            assert(nodes.contains(lab[x]));
        }
    }
}

proof fn lemma_round_keeps_labels_over(lab: Map<u128, u128>, nodes: Seq<u128>, order: Seq<u128>, edges: Seq<(u128, u128)>, k: int)
    requires
        labels_over(lab, nodes),
        forall|x: u128| #[trigger] order.contains(x) ==> nodes.contains(x),
    ensures
        labels_over(round_prefix(lab, order, edges, k).0, nodes),
    decreases k,
{
    if 0 < k <= order.len() {
        lemma_round_keeps_labels_over(lab, nodes, order, edges, k - 1);
        let l1 = round_prefix(lab, order, edges, k - 1).0;
        assert(order.contains(order[k - 1]));
        lemma_update_keeps_labels_over(l1, nodes, order[k - 1], edges);
    }
}

proof fn lemma_propagate_keeps_labels_over(lab: Map<u128, u128>, nodes: Seq<u128>, order: Seq<u128>, edges: Seq<(u128, u128)>, rounds: nat)
    requires
        labels_over(lab, nodes),
        forall|x: u128| #[trigger] order.contains(x) ==> nodes.contains(x),
    ensures
        labels_over(propagate(lab, order, edges, rounds), nodes),
    decreases rounds,
{
    if rounds > 0 {
        lemma_round_keeps_labels_over(lab, nodes, order, edges, order.len() as int);
        let m = round_prefix(lab, order, edges, order.len() as int).0;
        lemma_propagate_keeps_labels_over(m, nodes, order, edges, (rounds - 1) as nat);
    }
}

/// Community detection labels every given node, and only those, and every
/// label is the id of one of the nodes.
pub proof fn law_labels_come_from_nodes(nodes: Seq<u128>, edges: Seq<(u128, u128)>)
    ensures
        labels_over(communities(nodes, edges), nodes),
{
    assert(vstd::relations::total_ordering(node_leq()));
    nodes.lemma_sort_by_ensures(node_leq());
    assert(labels_over(own_labels(nodes), nodes));
    lemma_propagate_keeps_labels_over(own_labels(nodes), nodes, nodes.sort_by(node_leq()), edges, 20);
}

proof fn lemma_update_keeps_other(lab: Map<u128, u128>, node: u128, edges: Seq<(u128, u128)>, n: u128)
    requires
        n != node || crate::tools::ingest_symbols::neighbors(edges, n).len() == 0,
    ensures
        update_node(lab, node, edges).0.contains_key(n) == lab.contains_key(n),
        lab.contains_key(n) ==> update_node(lab, node, edges).0[n] == lab[n],
{
}

proof fn lemma_round_keeps_isolated(lab: Map<u128, u128>, order: Seq<u128>, edges: Seq<(u128, u128)>, k: int, n: u128)
    requires
        crate::tools::ingest_symbols::neighbors(edges, n).len() == 0,
    ensures
        round_prefix(lab, order, edges, k).0.contains_key(n) == lab.contains_key(n),
        lab.contains_key(n) ==> round_prefix(lab, order, edges, k).0[n] == lab[n],
    decreases k,
{
    if 0 < k <= order.len() {
        lemma_round_keeps_isolated(lab, order, edges, k - 1, n);
        lemma_update_keeps_other(round_prefix(lab, order, edges, k - 1).0, order[k - 1], edges, n);
    }
}

proof fn lemma_propagate_keeps_isolated(lab: Map<u128, u128>, order: Seq<u128>, edges: Seq<(u128, u128)>, rounds: nat, n: u128)
    requires
        crate::tools::ingest_symbols::neighbors(edges, n).len() == 0,
    ensures
        propagate(lab, order, edges, rounds).contains_key(n) == lab.contains_key(n),
        lab.contains_key(n) ==> propagate(lab, order, edges, rounds)[n] == lab[n],
    decreases rounds,
{
    if rounds > 0 {
        lemma_round_keeps_isolated(lab, order, edges, order.len() as int, n);
        let m = round_prefix(lab, order, edges, order.len() as int).0;
        lemma_propagate_keeps_isolated(m, order, edges, (rounds - 1) as nat, n);
    }
}

/// A node that no edge touches stays in a community of its own.
pub proof fn law_isolated_node_keeps_own_label(nodes: Seq<u128>, edges: Seq<(u128, u128)>, n: u128)
    requires
        nodes.contains(n),
        crate::tools::ingest_symbols::neighbors(edges, n).len() == 0,
    ensures
        communities(nodes, edges).contains_key(n),
        communities(nodes, edges)[n] == n,
{
    lemma_propagate_keeps_isolated(own_labels(nodes), nodes.sort_by(node_leq()), edges, 20, n);
}

// ---------------------------------------------------------------------------
// Overlap of file lists
// ---------------------------------------------------------------------------

proof fn lemma_common_with_superset(a: Seq<Seq<char>>, b: Seq<Seq<char>>)
    requires
        forall|x: Seq<char>| #[trigger] a.contains(x) ==> b.contains(x),
    ensures
        common_count(a, b) == distinct_count(a),
    decreases a.len(),
{
    if a.len() > 0 {
        assert forall|x: Seq<char>| #[trigger] a.drop_last().contains(x) implies b.contains(x) by {
            let j = choose|j: int| 0 <= j < a.drop_last().len() && a.drop_last()[j] == x;
            assert(a[j] == x);
            assert(a.contains(x));
        }
        lemma_common_with_superset(a.drop_last(), b);
        assert(a.contains(a.last())) by {
            assert(a[a.len() - 1] == a.last());
        }
    }
}

/// A file list overlaps itself completely: the files both hold are all of
/// its distinct files, so the similarity of a non-empty list with itself is
/// one.
pub proof fn law_jaccard_of_identical_lists(a: Seq<Seq<char>>)
    ensures
        common_count(a, a) == distinct_count(a),
{
    lemma_common_with_superset(a, a);
}

// ---------------------------------------------------------------------------
// Patches and paths
// ---------------------------------------------------------------------------

/// The number of newlines in `s`.
pub open spec fn newline_count(s: Seq<char>) -> nat
    decreases s.len(),
{
    if s.len() == 0 {
        0
    } else {
        newline_count(s.drop_last()) + if s.last() == '\n' {
            1nat
        } else {
            0nat
        }
    }
}

/// A text shows in a patch as one more line than it has newlines.
pub proof fn law_patch_lines_count(s: Seq<char>)
    ensures
        split_newlines(s).len() == newline_count(s) + 1,
    decreases s.len(),
{
    if s.len() > 0 {
        law_patch_lines_count(s.drop_last());
    }
}

/// The path has no `.`, and no `..` right after an ordinary component.
pub open spec fn is_normal_form(p: Seq<PathPart>) -> bool {
    &&& forall|i: int| 0 <= i < p.len() ==> !(#[trigger] p[i] is CurDir)
    &&& forall|i: int| 0 < i < p.len() && #[trigger] p[i] is ParentDir ==> !(p[i - 1] is Normal)
}

proof fn lemma_normalize_is_normal_form(p: Seq<PathPart>)
    ensures
        is_normal_form(normalize_parts(p)),
    decreases p.len(),
{
    if p.len() > 0 {
        lemma_normalize_is_normal_form(p.drop_last());
        let out = normalize_parts(p.drop_last());
        let r = normalize_parts(p);
        assert forall|i: int| 0 <= i < r.len() implies !(#[trigger] r[i] is CurDir) by {
            if i < out.len() {
                assert(r[i] == out[i]);
            }
        }
        assert forall|i: int| 0 < i < r.len() && #[trigger] r[i] is ParentDir implies !(r[i - 1] is Normal) by {
            if i < out.len() && r.len() >= out.len() {
                assert(r[i] == out[i]);
                assert(r[i - 1] == out[i - 1]);
            } else if r.len() < out.len() {
                assert(r[i] == out[i]);
                assert(r[i - 1] == out[i - 1]);
            }
        }
    }
}

proof fn lemma_normal_form_fixed(p: Seq<PathPart>)
    requires
        is_normal_form(p),
    ensures
        normalize_parts(p) == p,
    decreases p.len(),
{
    if p.len() > 0 {
        let q = p.drop_last();
        assert(is_normal_form(q)) by {
            assert forall|i: int| 0 <= i < q.len() implies !(#[trigger] q[i] is CurDir) by {
                assert(q[i] == p[i]);
            }
            assert forall|i: int| 0 < i < q.len() && #[trigger] q[i] is ParentDir implies !(q[i - 1] is Normal) by {
                assert(q[i] == p[i]);
                assert(q[i - 1] == p[i - 1]);
            }
        }
        lemma_normal_form_fixed(q);
        assert(!(p[p.len() - 1] is CurDir));
        if p.last() is ParentDir && p.len() > 1 {
            assert(!(p[p.len() - 2] is Normal));
            assert(q.last() == p[p.len() - 2]);
        }
        assert(q.push(p.last()) == p);
    }
}

/// Lexical normalisation is idempotent: a normalised path normalises to
/// itself.
pub proof fn law_normalize_idempotent(p: Seq<PathPart>)
    ensures
        normalize_parts(normalize_parts(p)) == normalize_parts(p),
{
    lemma_normalize_is_normal_form(p);
    lemma_normal_form_fixed(normalize_parts(p));
}

// ---------------------------------------------------------------------------
// Change inspection
// ---------------------------------------------------------------------------

/// No two reported violations are about the same decision and constraint
/// text.
pub proof fn law_violations_are_unique(
    cs: Seq<ConstraintRef>,
    ds: Seq<DecisionRef>,
    files: Seq<Seq<char>>,
    summary: Option<Seq<char>>,
)
    ensures
        forall|i: int, j: int|
            0 <= i < j < collected(cs, ds, files, summary).len() ==> !(#[trigger] collected(
                cs,
                ds,
                files,
                summary,
            )[i].0 == #[trigger] collected(cs, ds, files, summary)[j].0 && collected(
                cs,
                ds,
                files,
                summary,
            )[i].2 == collected(cs, ds, files, summary)[j].2),
    decreases cs.len(),
{
    if cs.len() > 0 {
        law_violations_are_unique(cs.drop_last(), ds, files, summary);
        let r = collected(cs.drop_last(), ds, files, summary);
        let out = collected(cs, ds, files, summary);
        match assessment(cs.last(), ds, files, summary) {
            Some(t) => {
                if !has_key(r, t.0, t.2) {
                    assert forall|i: int, j: int| 0 <= i < j < out.len() implies !(#[trigger] out[i].0
                        == #[trigger] out[j].0 && out[i].2 == out[j].2) by {
                        if j == r.len() {
                            assert(out[j] == t);
                            assert(out[i] == r[i]);
                            if out[i].0 == t.0 && out[i].2 == t.2 {
                                assert(r[i].0 == t.0 && r[i].2 == t.2);
                            }
                        } else {
                            assert(out[i] == r[i]);
                            assert(out[j] == r[j]);
                        }
                    }
                }
            },
            None => {},
        }
    }
}

// ---------------------------------------------------------------------------
// Evidence
// ---------------------------------------------------------------------------

proof fn lemma_span_from_bounds(ls: Seq<Seq<char>>, needle: Seq<char>, start: int)
    ensures
        span_from(ls, needle, start) matches Some((s, e)) ==> 1 <= s <= e <= ls.len(),
    decreases ls.len() - start,
{
    if 0 <= start < ls.len() {
        lemma_scan_window_bounds(ls, needle, start, 0);
        lemma_span_from_bounds(ls, needle, start + 1);
    }
}

proof fn lemma_scan_window_bounds(ls: Seq<Seq<char>>, needle: Seq<char>, start: int, off: int)
    requires
        0 <= start,
    ensures
        scan_window(ls, needle, start, off) matches Some(o) ==> off <= o && start + o < ls.len(),
    decreases 80 - off,
{
    if 0 <= off < 80 && start + off < ls.len() {
        lemma_scan_window_bounds(ls, needle, start, off + 1);
    }
}

/// A relocated span lies within the file: its first line is at least one,
/// and it ends at or after its start and at or before the last line.
pub proof fn law_relocated_span_within_file(norm_lines: Seq<Seq<char>>, needle: Seq<char>)
    ensures
        find_span_spec(norm_lines, needle) matches Some((s, e)) ==> 1 <= s <= e <= norm_lines.len(),
{
    lemma_span_from_bounds(norm_lines, needle, 0);
}

// ---------------------------------------------------------------------------
// Snippets
// ---------------------------------------------------------------------------

/// A snippet never exceeds its limit by more than the ellipsis, and always
/// begins with the text it was cut from.
pub proof fn law_snippet_is_bounded_prefix(s: Seq<char>, max: nat)
    ensures
        snippet_spec(s, max).len() <= max + 1,
        s.len() <= max ==> snippet_spec(s, max) == s,
        s.len() > max ==> snippet_spec(s, max).take(max as int) == s.take(max as int),
{
}

// ---------------------------------------------------------------------------
// Commits
// ---------------------------------------------------------------------------

proof fn lemma_pad4_len(s: Seq<char>)
    ensures
        pad4(s).len() >= 4,
        pad4(s).len() >= s.len(),
    decreases 4 - s.len(),
{
    if s.len() < 4 {
        lemma_pad4_len(seq!['0'] + s);
    }
}

/// Every reference read from a commit message is canonical: `ADR-` and at
/// least four more characters (the zero-padded number).
pub proof fn law_adr_refs_are_canonical(u: Seq<char>, p: int)
    ensures
        forall|i: int|
            0 <= i < refs_from(u, p).len() ==> (#[trigger] refs_from(u, p)[i]).len() >= 8
                && refs_from(u, p)[i].take(4) == "ADR-"@,
    decreases u.len() - p,
{
    match find_adr(u, p) {
        None => {},
        Some(q) => {
            if !(q + 3 >= u.len() || q < p) {
                let ds = leading_digits(skip_dashes(u.skip(q + 3)));
                let head = if ds.len() > 0 { seq![adr_ref_of(ds)] } else { Seq::<Seq<char>>::empty() };
                crate::tools::sync_commits::lemma_find_adr_progress(u, p);
                law_adr_refs_are_canonical(u, q + 4);
                if ds.len() > 0 {
                    let v = if digits_value(ds) <= u32::MAX { digits_value(ds) } else { 0 };
                    lemma_pad4_len(decimal(v));
                    reveal_strlit("ADR-");
                    assert(("ADR-"@ + pad4(decimal(v))).take(4) =~= "ADR-"@);
                }
                let all = refs_from(u, p);
                assert(all == head + refs_from(u, q + 4));
                assert forall|i: int| 0 <= i < all.len() implies (#[trigger] all[i]).len() >= 8 && all[i].take(4)
                    == "ADR-"@ by {
                    if i >= head.len() {
                        assert(all[i] == refs_from(u, q + 4)[i - head.len()]);
                    }
                }
            }
        },
    }
}

proof fn lemma_all_present_no_absent(xs: Seq<(Seq<char>, Seq<char>)>, others: Seq<(Seq<char>, Seq<char>)>)
    requires
        forall|i: int| 0 <= i < xs.len() ==> others.contains(#[trigger] xs[i]),
    ensures
        absent_positions(xs, others).len() == 0,
        absent_keys(xs, others).len() == 0,
    decreases xs.len(),
{
    if xs.len() > 0 {
        assert(others.contains(xs[xs.len() - 1]));
        assert forall|i: int| 0 <= i < xs.drop_last().len() implies others.contains(#[trigger] xs.drop_last()[i]) by {
            assert(xs.drop_last()[i] == xs[i]);
        }
        lemma_all_present_no_absent(xs.drop_last(), others);
    }
}

/// A file whose symbols did not change has an empty symbol diff: nothing
/// added, nothing removed.
pub proof fn law_unchanged_file_has_empty_diff(symbols: Seq<(Seq<char>, Seq<char>)>)
    ensures
        absent_positions(symbols, symbols).len() == 0,
        absent_keys(symbols, symbols).len() == 0,
{
    assert forall|i: int| 0 <= i < symbols.len() implies symbols.contains(#[trigger] symbols[i]) by {}
    lemma_all_present_no_absent(symbols, symbols);
}

// ---------------------------------------------------------------------------
// Changed files
// ---------------------------------------------------------------------------

/// The changed files of a window are sorted, name each file once, and are
/// exactly the touched paths with forward slashes.
pub proof fn law_changed_files_sorted_unique_complete(raw: Seq<Seq<char>>)
    ensures
        forall|i: int, j: int|
            0 <= i < j < changed_list(raw).len() ==> #[trigger] changed_list(raw)[i] != #[trigger] changed_list(raw)[j]
                && str_le(changed_list(raw)[i], changed_list(raw)[j]),
        forall|p: Seq<char>| #[trigger] changed_list(raw).contains(p) <==> raw.map_values(|q: Seq<char>| forward_slashes(q)).contains(p),
{
    let norm = raw.map_values(|q: Seq<char>| forward_slashes(q));
    lemma_str_leq_total_ordering();
    norm.lemma_sort_by_ensures(str_leq());
    let sorted = norm.sort_by(str_leq());
    lemma_dedup_sorted_increasing(sorted);
    lemma_dedup_members(sorted);
    assert forall|p: Seq<char>| #[trigger] changed_list(raw).contains(p) <==> norm.contains(p) by {
        norm.to_multiset_ensures();
        sorted.to_multiset_ensures();
        assert(norm.contains(p) <==> norm.to_multiset().count(p) > 0);
        assert(sorted.contains(p) <==> sorted.to_multiset().count(p) > 0);
    }
}

// ---------------------------------------------------------------------------
// Index integrity
// ---------------------------------------------------------------------------

proof fn lemma_keys_present_none_missing(a: Seq<(String, usize)>, b: Seq<(String, usize)>)
    requires
        forall|i: int| 0 <= i < a.len() ==> keys_of(b).contains(#[trigger] a[i].0@),
    ensures
        keys_missing(a, b).len() == 0,
    decreases a.len(),
{
    if a.len() > 0 {
        assert(keys_of(b).contains(a[a.len() - 1].0@));
        assert forall|i: int| 0 <= i < a.drop_last().len() implies keys_of(b).contains(#[trigger] a.drop_last()[i].0@) by {
            assert(a.drop_last()[i] == a[i]);
        }
        lemma_keys_present_none_missing(a.drop_last(), b);
    }
}

/// An index audited against a re-sync that produces the same projection is
/// consistent: no key is missing on either side and every key counts the
/// same claims.
pub proof fn law_same_projection_is_consistent(p: Seq<(String, usize)>)
    requires
        keys_of(p).no_duplicates(),
    ensures
        keys_missing(p, p).len() == 0,
        counts_agree(p, p),
{
    assert forall|i: int, j: int| 0 <= i < p.len() && 0 <= j < p.len() && #[trigger] p[i].0@ == #[trigger] p[j].0@ implies p[i].1 == p[j].1 by {
        assert(keys_of(p)[i] == p[i].0@ && keys_of(p)[j] == p[j].0@);
    }
    assert forall|i: int| 0 <= i < p.len() implies keys_of(p).contains(#[trigger] p[i].0@) by {
        assert(keys_of(p)[i] == p[i].0@);
    }
    lemma_keys_present_none_missing(p, p);
}

proof fn lemma_none_missing_keys_present(a: Seq<(String, usize)>, b: Seq<(String, usize)>)
    requires
        keys_missing(a, b).len() == 0,
    ensures
        forall|i: int| 0 <= i < a.len() ==> keys_of(b).contains(#[trigger] a[i].0@),
    decreases a.len(),
{
    if a.len() > 0 {
        assert(keys_of(b).contains(a.last().0@));
        lemma_none_missing_keys_present(a.drop_last(), b);
        assert forall|i: int| 0 <= i < a.len() implies keys_of(b).contains(#[trigger] a[i].0@) by {
            if i < a.len() - 1 {
                assert(a.drop_last()[i] == a[i]);
            }
        }
    }
}

proof fn lemma_claims_in_remove(p: Seq<(String, usize)>, j: int)
    requires
        0 <= j < p.len(),
    ensures
        claims_in(p.remove(j)) + p[j].1 == claims_in(p),
    decreases p.len(),
{
    if j == p.len() - 1 {
        assert(p.remove(j) == p.drop_last());
    } else {
        lemma_claims_in_remove(p.drop_last(), j);
        assert(p.remove(j).drop_last() == p.drop_last().remove(j));
        assert(p.remove(j).last() == p.last());
    }
}

/// A consistent audit counts the same claims live and rebuilt: two
/// projections with the same keys, each once, and the same count for each
/// key hold the same number of claims.
pub proof fn law_consistent_audit_counts_the_same_claims(live: Seq<(String, usize)>, rebuilt: Seq<(String, usize)>)
    requires
        keys_of(live).no_duplicates(),
        keys_of(rebuilt).no_duplicates(),
        keys_missing(live, rebuilt).len() == 0,
        keys_missing(rebuilt, live).len() == 0,
        counts_agree(live, rebuilt),
    ensures
        claims_in(live) == claims_in(rebuilt),
    decreases live.len(),
{
    lemma_none_missing_keys_present(live, rebuilt);
    lemma_none_missing_keys_present(rebuilt, live);
    if live.len() == 0 {
        if rebuilt.len() > 0 {
            assert(keys_of(live).contains(rebuilt[0].0@));
        }
    } else {
        let n = live.len() - 1;
        let k = live[n].0@;
        assert(keys_of(rebuilt).contains(k));
        let j = choose|j: int| 0 <= j < keys_of(rebuilt).len() && keys_of(rebuilt)[j] == k;
        assert(rebuilt[j].0@ == k);
        assert(rebuilt[j].1 == live[n].1);
        let l2 = live.drop_last();
        let r2 = rebuilt.remove(j);
        lemma_claims_in_remove(rebuilt, j);
        assert(keys_of(l2) =~= keys_of(live).drop_last());
        assert(keys_of(r2) =~= keys_of(rebuilt).remove(j));
        assert(keys_of(l2).no_duplicates()) by {
            assert forall|a: int, b: int| 0 <= a < b < keys_of(l2).len() implies keys_of(l2)[a] != keys_of(l2)[b] by {
                assert(keys_of(l2)[a] == keys_of(live)[a] && keys_of(l2)[b] == keys_of(live)[b]);
            }
        }
        assert(keys_of(r2).no_duplicates()) by {
            assert forall|a: int, b: int| 0 <= a < b < keys_of(r2).len() implies keys_of(r2)[a] != keys_of(r2)[b] by {
                let a2 = if a < j { a } else { a + 1 };
                let b2 = if b < j { b } else { b + 1 };
                assert(keys_of(r2)[a] == keys_of(rebuilt)[a2] && keys_of(r2)[b] == keys_of(rebuilt)[b2]);
            }
        }
        assert forall|i: int| 0 <= i < l2.len() implies keys_of(r2).contains(#[trigger] l2[i].0@) by {
            assert(l2[i] == live[i]);
            assert(keys_of(live)[i] == live[i].0@ && keys_of(live)[n] == k);
            assert(keys_of(rebuilt).contains(live[i].0@));
            let m = choose|m: int| 0 <= m < keys_of(rebuilt).len() && keys_of(rebuilt)[m] == live[i].0@;
            assert(m != j);
            let m2 = if m < j { m } else { m - 1 };
            assert(keys_of(r2)[m2] == keys_of(rebuilt)[m]);
        }
        assert forall|i: int| 0 <= i < r2.len() implies keys_of(l2).contains(#[trigger] r2[i].0@) by {
            let i2 = if i < j { i } else { i + 1 };
            assert(r2[i] == rebuilt[i2]);
            assert(keys_of(rebuilt)[i2] == rebuilt[i2].0@ && keys_of(rebuilt)[j] == k);
            assert(keys_of(live).contains(rebuilt[i2].0@));
            let m = choose|m: int| 0 <= m < keys_of(live).len() && keys_of(live)[m] == rebuilt[i2].0@;
            assert(m != n);
            assert(keys_of(l2)[m] == keys_of(live)[m]);
        }
        lemma_keys_present_none_missing(l2, r2);
        lemma_keys_present_none_missing(r2, l2);
        assert forall|a: int, b: int|
            0 <= a < l2.len() && 0 <= b < r2.len() && #[trigger] l2[a].0@ == #[trigger] r2[b].0@ implies l2[a].1
                == r2[b].1 by {
            let b2 = if b < j { b } else { b + 1 };
            assert(l2[a] == live[a] && r2[b] == rebuilt[b2]);
        }
        law_consistent_audit_counts_the_same_claims(l2, r2);
    }
}

// ---------------------------------------------------------------------------
// Community membership
// ---------------------------------------------------------------------------

/// Communities partition the symbols: each symbol is a member of the
/// community of its own label, and of no other.
pub proof fn law_each_symbol_in_one_community(ids: Seq<u128>, labels: Map<u128, u128>, p: int, l: u128)
    requires
        0 <= p < ids.len(),
    ensures
        members_of(ids, labels, l).contains(p) <==> l == label_of(labels, ids[p]),
    decreases ids.len(),
{
    let last = ids.len() - 1;
    if p < last {
        law_each_symbol_in_one_community(ids.drop_last(), labels, p, l);
        assert(ids.drop_last()[p] == ids[p]);
        let m = members_of(ids.drop_last(), labels, l);
        if label_of(labels, ids.last()) == l {
            assert(members_of(ids, labels, l) == m.push(last));
            if members_of(ids, labels, l).contains(p) {
                let w = choose|w: int| 0 <= w < m.push(last).len() && m.push(last)[w] == p;
                if w < m.len() {
                    assert(m[w] == p);
                }
            }
            if m.contains(p) {
                let w = choose|w: int| 0 <= w < m.len() && m[w] == p;
                assert(m.push(last)[w] == p);
            }
        }
    } else {
        lemma_members_below(ids.drop_last(), labels, l);
        let m = members_of(ids.drop_last(), labels, l);
        if label_of(labels, ids.last()) == l {
            assert(m.push(last)[m.len() as int] == p);
        } else {
            if m.contains(p) {
                let w = choose|w: int| 0 <= w < m.len() && m[w] == p;
            }
        }
    }
}

proof fn lemma_members_below(ids: Seq<u128>, labels: Map<u128, u128>, l: u128)
    ensures
        forall|w: int| 0 <= w < members_of(ids, labels, l).len() ==> #[trigger] members_of(ids, labels, l)[w] < ids.len(),
    decreases ids.len(),
{
    if ids.len() > 0 {
        lemma_members_below(ids.drop_last(), labels, l);
        let m = members_of(ids.drop_last(), labels, l);
        if label_of(labels, ids.last()) == l {
            assert forall|w: int| 0 <= w < m.push(ids.len() - 1).len() implies #[trigger] m.push(ids.len() - 1)[w] < ids.len() by {
                if w < m.len() {
                    assert(m.push(ids.len() - 1)[w] == m[w]);
                }
            }
        }
    }
}

/// Two ADRs that each supersede the other are reported as a cycle once: by
/// exactly one of the two pairs.
pub proof fn law_cycle_reported_once(ps: Seq<SupersessionPair>, p: int, q: int)
    requires
        0 <= p < ps.len(),
        0 <= q < ps.len(),
        ps[p].superseder@ == ps[q].superseded@,
        ps[p].superseded@ == ps[q].superseder@,
        ps[p].superseder@ != ps[p].superseded@,
    ensures
        cycle_at(ps, p) != cycle_at(ps, q),
{
    crate::tools::ingest_symbols::lemma_str_leq_total_ordering();
    let le = crate::tools::ingest_symbols::str_leq();
    assert(le(ps[p].superseder@, ps[p].superseded@) || le(ps[p].superseded@, ps[p].superseder@));
    assert(ps[q].superseder@ == ps[p].superseded@ && ps[q].superseded@ == ps[p].superseder@);
    assert(exists|w: int|
        0 <= w < ps.len() && #[trigger] ps[w].superseder@ == ps[p].superseded@ && ps[w].superseded@
            == ps[p].superseder@);
    assert(exists|w: int|
        0 <= w < ps.len() && #[trigger] ps[w].superseder@ == ps[q].superseded@ && ps[w].superseded@
            == ps[q].superseder@);
    if le(ps[p].superseder@, ps[p].superseded@) && le(ps[p].superseded@, ps[p].superseder@) {
        assert(ps[p].superseder@ == ps[p].superseded@);
    }
}

/// Entity resolution within an episode: once a decision is inserted and
/// becomes known, a later decision with the same normalised text is merged
/// into it, whatever its embedding similarity; and a decision whose text is
/// known is never inserted again.
pub proof fn law_inserted_decision_is_found_again(
    known: Seq<Seq<char>>,
    n: Seq<char>,
    first: Option<(usize, bool)>,
    later: Option<(usize, bool)>,
)
    requires
        placement(known, n, first) == EpisodeStep::Insert,
    ensures
        placement(known.push(n), n, later) == EpisodeStep::MergeExact(known.len() as usize),
{
    let k2 = known.push(n);
    assert(k2[known.len() as int] == n);
    assert forall|k: int| 0 <= k < known.len() implies k2[k] != n by {
        assert(k2[k] == known[k]);
        if known[k] == n {
            assert(exists|i: int| 0 <= i < known.len() && known[i] == n);
        }
    }
    lemma_first_position(k2, n, known.len() as int);
}

/// The projection key of a claim does not depend on the order in which its
/// anchors are listed: a re-sync that finds the same anchor hashes in
/// another order keys the claim the same.
pub proof fn law_projection_key_ignores_anchor_order(
    kind: Seq<char>,
    polarity: Option<Seq<char>>,
    text_norm: Seq<char>,
    a: Seq<Seq<char>>,
    b: Seq<Seq<char>>,
)
    requires
        a.to_multiset() == b.to_multiset(),
    ensures
        projection_key_spec(kind, polarity, text_norm, a) == projection_key_spec(kind, polarity, text_norm, b),
{
    let le = crate::tools::ingest_symbols::str_leq();
    crate::tools::ingest_symbols::lemma_str_leq_total_ordering();
    a.lemma_sort_by_ensures(le);
    b.lemma_sort_by_ensures(le);
    vstd::seq_lib::lemma_sorted_unique(a.sort_by(le), b.sort_by(le), le);
}

/// A claim's disposition does not depend on the order of its anchors: any
/// rearrangement of the same anchor states gives the same disposition.
pub proof fn law_disposition_ignores_anchor_order(a: Seq<AnchorState>, b: Seq<AnchorState>)
    requires
        a.to_multiset() == b.to_multiset(),
    ensures
        disposition_spec(a) == disposition_spec(b),
{
    broadcast use vstd::seq_lib::group_to_multiset_ensures;

    assert(a.len() == a.to_multiset().len() && b.len() == b.to_multiset().len());
    assert forall|x: AnchorState| a.contains(x) <==> b.contains(x) by {
        assert(a.contains(x) <==> a.to_multiset().count(x) > 0);
        assert(b.contains(x) <==> b.to_multiset().count(x) > 0);
    }
    if all_fresh(a) {
        assert forall|i: int| 0 <= i < b.len() implies #[trigger] b[i].verification.freshness == Freshness::Fresh by {
            assert(b.contains(b[i]));
            let j = choose|j: int| 0 <= j < a.len() && a[j] == b[i];
        }
    }
    if all_fresh(b) {
        assert forall|i: int| 0 <= i < a.len() implies #[trigger] a[i].verification.freshness == Freshness::Fresh by {
            assert(a.contains(a[i]));
            let j = choose|j: int| 0 <= j < b.len() && b[j] == a[i];
        }
    }
    if all_stale_relocated(a) {
        assert forall|i: int|
            0 <= i < b.len() && #[trigger] b[i].verification.freshness == Freshness::Stale implies b[i].verification.relocated_locator.is_some() by {
            assert(b.contains(b[i]));
            let j = choose|j: int| 0 <= j < a.len() && a[j] == b[i];
        }
    }
    if all_stale_relocated(b) {
        assert forall|i: int|
            0 <= i < a.len() && #[trigger] a[i].verification.freshness == Freshness::Stale implies a[i].verification.relocated_locator.is_some() by {
            assert(a.contains(a[i]));
            let j = choose|j: int| 0 <= j < b.len() && b[j] == a[i];
        }
    }
}

// ---------------------------------------------------------------------------
// What the heuristics read
// ---------------------------------------------------------------------------

/// A constraint reads as a prohibition exactly when its lowercased text
/// contains one of the ten negation markers: "must not", "shall not",
/// "should not", "may not", "do not", "don't", "never", "prohibit",
/// "forbid" or "avoid".
pub proof fn law_negation_markers(t: Seq<char>)
    ensures
        crate::tools::check_consistency::has_negation_spec(t) <==> {
            let l = crate::text::str_lowercase(t);
            ||| crate::text::contains_seq(l, "must not"@)
            ||| crate::text::contains_seq(l, "shall not"@)
            ||| crate::text::contains_seq(l, "should not"@)
            ||| crate::text::contains_seq(l, "may not"@)
            ||| crate::text::contains_seq(l, "do not"@)
            ||| crate::text::contains_seq(l, "don't"@)
            ||| crate::text::contains_seq(l, "never"@)
            ||| crate::text::contains_seq(l, "prohibit"@)
            ||| crate::text::contains_seq(l, "forbid"@)
            ||| crate::text::contains_seq(l, "avoid"@)
        },
{
    let l = crate::text::str_lowercase(t);
    let m = crate::tools::check_consistency::negation_markers();
    assert(m.len() == 10);
    assert(m[0] == "must not"@ && m[1] == "shall not"@ && m[2] == "should not"@ && m[3] == "may not"@);
    assert(m[4] == "do not"@ && m[5] == "don't"@ && m[6] == "never"@ && m[7] == "prohibit"@);
    assert(m[8] == "forbid"@ && m[9] == "avoid"@);
    if crate::tools::check_consistency::has_negation_spec(t) {
        let i = choose|i: int| 0 <= i < m.len() && #[trigger] crate::text::contains_seq(l, m[i]);
        assert(0 <= i < 10);
    }
    if crate::text::contains_seq(l, "must not"@) { assert(crate::text::contains_seq(l, m[0])); }
    if crate::text::contains_seq(l, "shall not"@) { assert(crate::text::contains_seq(l, m[1])); }
    if crate::text::contains_seq(l, "should not"@) { assert(crate::text::contains_seq(l, m[2])); }
    if crate::text::contains_seq(l, "may not"@) { assert(crate::text::contains_seq(l, m[3])); }
    if crate::text::contains_seq(l, "do not"@) { assert(crate::text::contains_seq(l, m[4])); }
    if crate::text::contains_seq(l, "don't"@) { assert(crate::text::contains_seq(l, m[5])); }
    if crate::text::contains_seq(l, "never"@) { assert(crate::text::contains_seq(l, m[6])); }
    if crate::text::contains_seq(l, "prohibit"@) { assert(crate::text::contains_seq(l, m[7])); }
    if crate::text::contains_seq(l, "forbid"@) { assert(crate::text::contains_seq(l, m[8])); }
    if crate::text::contains_seq(l, "avoid"@) { assert(crate::text::contains_seq(l, m[9])); }
}

/// The call graph is read as undirected: `m` is a neighbour of `n` exactly
/// when some edge joins them, whichever way it points.
pub proof fn law_neighbors_undirected(edges: Seq<(u128, u128)>, n: u128, m: u128)
    ensures
        crate::tools::ingest_symbols::neighbors(edges, n).contains(m) <==> exists|i: int|
            0 <= i < edges.len() && (#[trigger] edges[i] == (n, m) || edges[i] == (m, n)),
    decreases edges.len(),
{
    if edges.len() > 0 {
        let d = edges.drop_last();
        law_neighbors_undirected(d, n, m);
        let rest = crate::tools::ingest_symbols::neighbors(d, n);
        let (a, b) = edges.last();
        let r1 = if a == n { rest.push(b) } else { rest };
        let all = crate::tools::ingest_symbols::neighbors(edges, n);
        assert(all == if b == n { r1.push(a) } else { r1 });
        assert forall|x: u128| #[trigger] all.contains(x) <==> rest.contains(x) || (a == n && x == b) || (b == n
            && x == a) by {
            if all.contains(x) {
                let w = choose|w: int| 0 <= w < all.len() && all[w] == x;
                if w < rest.len() {
                    assert(rest[w] == x);
                }
            }
            if rest.contains(x) {
                let w = choose|w: int| 0 <= w < rest.len() && rest[w] == x;
                assert(r1[w] == x);
                assert(all[w] == x);
            }
            if a == n && x == b {
                assert(r1[rest.len() as int] == x);
                assert(all[rest.len() as int] == x);
            }
            if b == n && x == a {
                assert(all[r1.len() as int] == x);
            }
        }
        if exists|i: int| 0 <= i < edges.len() && (#[trigger] edges[i] == (n, m) || edges[i] == (m, n)) {
            let i = choose|i: int| 0 <= i < edges.len() && (#[trigger] edges[i] == (n, m) || edges[i] == (m, n));
            if i < d.len() {
                assert(d[i] == edges[i]);
            }
        }
        if exists|i: int| 0 <= i < d.len() && (#[trigger] d[i] == (n, m) || d[i] == (m, n)) {
            let i = choose|i: int| 0 <= i < d.len() && (#[trigger] d[i] == (n, m) || d[i] == (m, n));
            assert(edges[i] == d[i]);
        }
        if a == n && m == b {
            assert(edges[edges.len() - 1] == (n, m));
        }
        if b == n && m == a {
            assert(edges[edges.len() - 1] == (m, n));
        }
    }
}

/// Every edge turned round.
pub open spec fn reversed_edges(edges: Seq<(u128, u128)>) -> Seq<(u128, u128)> {
    edges.map_values(|e: (u128, u128)| (e.1, e.0))
}

proof fn lemma_neighbors_reversed(edges: Seq<(u128, u128)>, n: u128)
    ensures
        crate::tools::ingest_symbols::neighbors(reversed_edges(edges), n) == crate::tools::ingest_symbols::neighbors(
            edges,
            n,
        ),
    decreases edges.len(),
{
    if edges.len() > 0 {
        assert(reversed_edges(edges).drop_last() == reversed_edges(edges.drop_last()));
        lemma_neighbors_reversed(edges.drop_last(), n);
    }
}

proof fn lemma_round_reversed(lab: Map<u128, u128>, order: Seq<u128>, edges: Seq<(u128, u128)>, k: int)
    ensures
        round_prefix(lab, order, reversed_edges(edges), k) == round_prefix(lab, order, edges, k),
    decreases k,
{
    if k > 0 && k <= order.len() {
        lemma_round_reversed(lab, order, edges, k - 1);
        lemma_neighbors_reversed(edges, order[k - 1]);
    }
}

proof fn lemma_propagate_reversed(lab: Map<u128, u128>, order: Seq<u128>, edges: Seq<(u128, u128)>, rounds: nat)
    ensures
        propagate(lab, order, reversed_edges(edges), rounds) == propagate(lab, order, edges, rounds),
    decreases rounds,
{
    if rounds > 0 {
        lemma_round_reversed(lab, order, edges, order.len() as int);
        let (m, _) = round_prefix(lab, order, edges, order.len() as int);
        lemma_propagate_reversed(m, order, edges, (rounds - 1) as nat);
    }
}

/// Community detection does not depend on which way the calls point: turning
/// every edge round gives every symbol the same community.
pub proof fn law_communities_ignore_edge_direction(nodes: Seq<u128>, edges: Seq<(u128, u128)>)
    ensures
        communities(nodes, reversed_edges(edges)) == communities(nodes, edges),
{
    lemma_propagate_reversed(own_labels(nodes), nodes.sort_by(node_leq()), edges, 20);
}

/// Extraction follows wrappers: a reply that parses to an object (not a lead
/// itself) whose wrapper member, chat-completion content or other member
/// holds a JSON-looking string `s` extracts as `s` itself does, one level
/// of wrapping deeper; so a chat reply whose content is `{"facts":[1]}`
/// extracts as that content does.
pub proof fn law_extraction_follows_wrappers(r: Seq<char>, fuel: nat, v: crate::tools::json_utils::JsonValue, s: Seq<char>)
    requires
        fuel > 0,
        !starts_with(trim_start_spec(strip_fences_spec(r)), seq!['[']),
        crate::tools::json_utils::json_parse(strip_fences_spec(r)) == Some(v),
        !(v is Array),
        !crate::tools::json_utils::has_member(v, "title"@),
        !crate::tools::json_utils::has_member(v, "observed_pattern"@),
        crate::tools::json_utils::find_json_string_spec(v) == Some(s),
    ensures
        extract_spec(r, fuel) == extract_spec(s, (fuel - 1) as nat),
{
}

/// A chat-completion reply with no wrapper member extracts as the content
/// of its first choice does.
pub proof fn law_chat_content_is_extracted(
    r: Seq<char>,
    fuel: nat,
    fields: Vec<(String, crate::tools::json_utils::JsonValue)>,
    s: Seq<char>,
)
    requires
        fuel > 0,
        !starts_with(trim_start_spec(strip_fences_spec(r)), seq!['[']),
        crate::tools::json_utils::json_parse(strip_fences_spec(r)) == Some(
            crate::tools::json_utils::JsonValue::Object(fields),
        ),
        !crate::tools::json_utils::has_member(crate::tools::json_utils::JsonValue::Object(fields), "title"@),
        !crate::tools::json_utils::has_member(
            crate::tools::json_utils::JsonValue::Object(fields),
            "observed_pattern"@,
        ),
        crate::tools::json_utils::wrapper_member(fields@) is None,
        crate::tools::json_utils::choice_content(fields@) == Some(s),
    ensures
        extract_spec(r, fuel) == extract_spec(s, (fuel - 1) as nat),
{
    law_extraction_follows_wrappers(r, fuel, crate::tools::json_utils::JsonValue::Object(fields), s);
}

/// A rendered ADR draft states its decision under the Decision heading: for
/// a proposed decision that is not blank, the draft holds
/// `## Decision` and a blank line followed by the trimmed decision; and
/// likewise its context under the Context heading.
pub proof fn law_draft_states_its_decision(
    id: Seq<char>,
    title: Seq<char>,
    date: Seq<char>,
    context: Option<Seq<char>>,
    decision: Option<Seq<char>>,
    files: Seq<Seq<char>>,
    related: Seq<Seq<char>>,
)
    ensures
        match decision {
            Some(d) => trim_spec(d).len() > 0 ==> crate::text::contains_seq(
                crate::tools::generate_adr::adr_markdown(id, title, date, context, decision, files, related),
                "## Decision\n\n"@ + trim_spec(d) + "\n\n"@,
            ),
            None => true,
        },
        match context {
            Some(c) => trim_spec(c).len() > 0 ==> crate::text::contains_seq(
                crate::tools::generate_adr::adr_markdown(id, title, date, context, decision, files, related),
                "## Context\n\n"@ + trim_spec(c) + "\n\n"@,
            ),
            None => true,
        },
{
    let md = crate::tools::generate_adr::adr_markdown(id, title, date, context, decision, files, related);
    let head = "# "@ + id + ": "@ + title + "\n\n"@ + "## Status\n\nProposed\n\n"@ + "Date: "@ + date
        + "\n\n"@;
    let cs = "## Context\n\n"@ + crate::tools::generate_adr::section_body(context);
    let ds = "## Decision\n\n"@ + crate::tools::generate_adr::section_body(decision);
    let tail = md.skip((head.len() + cs.len() + ds.len()) as int);
    assert(md =~= head + cs + ds + tail);
    if let Some(d) = decision {
        let k = (head.len() + cs.len()) as int;
        assert(md.subrange(k, k + ds.len()) =~= ds);
        assert(crate::text::occurs_at(md, ds, k));
        if trim_spec(d).len() > 0 {
            assert(ds =~= "## Decision\n\n"@ + trim_spec(d) + "\n\n"@);
        }
    }
    if let Some(c) = context {
        let k = head.len() as int;
        assert(md.subrange(k, k + cs.len()) =~= cs);
        assert(crate::text::occurs_at(md, cs, k));
        if trim_spec(c).len() > 0 {
            assert(cs =~= "## Context\n\n"@ + trim_spec(c) + "\n\n"@);
        }
    }
}

proof fn lemma_matching_files_members(fs: Seq<Seq<char>>, ws: Seq<Seq<char>>, x: Seq<char>)
    ensures
        crate::tools::inspect_change::matching_files(fs, ws).contains(x) <==> fs.contains(x)
            && crate::tools::inspect_change::file_matches(x, ws),
    decreases fs.len(),
{
    if fs.len() > 0 {
        let d = fs.drop_last();
        lemma_matching_files_members(d, ws, x);
        let r = crate::tools::inspect_change::matching_files(d, ws);
        let all = crate::tools::inspect_change::matching_files(fs, ws);
        if all.contains(x) {
            let w = choose|w: int| 0 <= w < all.len() && all[w] == x;
            if w < r.len() {
                assert(r[w] == x);
                let u = choose|u: int| 0 <= u < d.len() && d[u] == x;
                assert(fs[u] == x);
            } else {
                assert(fs[fs.len() - 1] == x);
            }
        }
        if fs.contains(x) && crate::tools::inspect_change::file_matches(x, ws) {
            let u = choose|u: int| 0 <= u < fs.len() && fs[u] == x;
            if u < d.len() {
                assert(d[u] == x);
                let w = choose|w: int| 0 <= w < r.len() && r[w] == x;
                if crate::tools::inspect_change::file_matches(fs.last(), ws) {
                    assert(r.push(fs.last())[w] == x);
                }
            } else {
                assert(all[all.len() - 1] == x);
            }
        }
    }
}

/// A change is flagged against a constraint by the files it touches: a
/// changed file is among the matches exactly when one of its `/`-separated
/// path segments (lowercased) contains one of the constraint's words, every
/// alphanumeric word of more than three bytes of its lowercased text; and a
/// constraint with such a match is reported.
pub proof fn law_constraint_words_flag_files(
    c: ConstraintRef,
    ds: Seq<DecisionRef>,
    files: Seq<Seq<char>>,
    summary: Option<Seq<char>>,
    f: Seq<char>,
)
    ensures
        ({
            let words = crate::text::words_longer(crate::text::str_lowercase(c.text@), 3);
            let segs = crate::scan::split_on(crate::text::str_lowercase(f), '/');
            let hit = files.contains(f) && exists|i: int, j: int|
                0 <= i < words.len() && 0 <= j < segs.len() && crate::text::contains_seq(
                    #[trigger] segs[j],
                    #[trigger] words[i],
                );
            &&& hit ==> assessment(c, ds, files, summary) is Some
            &&& assessment(c, ds, files, summary) matches Some(v) ==> (v.3.contains(f) <==> hit)
        }),
{
    let words = crate::text::words_longer(crate::text::str_lowercase(c.text@), 3);
    assert(crate::tools::inspect_change::long_words(c.text@) == words);
    lemma_matching_files_members(files, words, f);
    let mf = crate::tools::inspect_change::matching_files(files, words);
    if mf.contains(f) {
        assert(mf.len() > 0);
    }
}

} // verus!
