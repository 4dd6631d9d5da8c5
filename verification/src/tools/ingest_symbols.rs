//! Symbol ingestion: the request and result, community detection over the
//! call graph, grouping symbols into communities, community labels, and
//! which directory entries the walker skips.
//!
//! Symbols are identified by the 128-bit value of their UUID; UUIDs order the
//! same way as those integers.

use std::collections::HashMap;

use vstd::prelude::*;
use vstd::multiset::Multiset;
use vstd::relations::{sorted_by, total_ordering};

pub use crate::hashing::sha256_hex;
use crate::scan::join;
use crate::text::views;

verus! {

/// Request to index the symbols of a repository.
#[derive(Debug)]
pub struct IngestSymbolsParams {
    /// Absolute path to the git repository root.
    pub repo_path: String,
    /// Glob pattern for source files; all supported files when absent.
    pub pattern: Option<String>,
    /// Re-index every file even when its content hash is unchanged.
    pub force: bool,
}

/// What an ingestion did. `R` is the architecture response it carries.
#[derive(Debug)]
pub struct IngestSymbolsResult<R> {
    pub response: R,
    pub files_total: usize,
    pub files_processed: usize,
    pub files_unchanged: usize,
    pub communities_detected: usize,
    pub cancelled: bool,
}

broadcast use vstd::std_specs::hash::group_hash_axioms;

// ---------------------------------------------------------------------------
// Label propagation
// ---------------------------------------------------------------------------

/// The neighbours of `n` along `edges` taken as undirected, in edge order: for
/// an edge `(a, b)`, `b` if `a == n`, then `a` if `b == n`.
pub open spec fn neighbors(edges: Seq<(u128, u128)>, n: u128) -> Seq<u128>
    decreases edges.len(),
{
    if edges.len() == 0 {
        Seq::empty()
    } else {
        let rest = neighbors(edges.drop_last(), n);
        let (a, b) = edges.last();
        let r1 = if a == n {
            rest.push(b)
        } else {
            rest
        };
        if b == n {
            r1.push(a)
        } else {
            r1
        }
    }
}

/// How many of `nbrs` carry label `l`.
pub open spec fn label_count(lab: Map<u128, u128>, nbrs: Seq<u128>, l: u128) -> nat
    decreases nbrs.len(),
{
    if nbrs.len() == 0 {
        0
    } else {
        label_count(lab, nbrs.drop_last(), l) + if lab.contains_key(nbrs.last()) && lab[nbrs.last()]
            == l {
            1nat
        } else {
            0nat
        }
    }
}

/// Label `c` beats label `b` among `nbrs`: it is more frequent, or as
/// frequent and smaller.
pub open spec fn prefers(lab: Map<u128, u128>, nbrs: Seq<u128>, c: u128, b: u128) -> bool {
    label_count(lab, nbrs, c) > label_count(lab, nbrs, b) || (label_count(lab, nbrs, c)
        == label_count(lab, nbrs, b) && c < b)
}

/// The best label among those carried by the first `k` of `nbrs`.
pub open spec fn best_among(lab: Map<u128, u128>, nbrs: Seq<u128>, k: int) -> Option<u128>
    decreases k,
{
    if k <= 0 || k > nbrs.len() {
        None
    } else {
        let r = best_among(lab, nbrs, k - 1);
        let x = nbrs[k - 1];
        if !lab.contains_key(x) {
            r
        } else {
            match r {
                None => Some(lab[x]),
                Some(b) => if prefers(lab, nbrs, lab[x], b) {
                    Some(lab[x])
                } else {
                    Some(b)
                },
            }
        }
    }
}

/// The most frequent label among the labelled neighbours, the smallest on a
/// tie; none when no neighbour is labelled.
pub open spec fn best_label(lab: Map<u128, u128>, nbrs: Seq<u128>) -> Option<u128> {
    best_among(lab, nbrs, nbrs.len() as int)
}

/// One node's update: it takes the best label of its neighbours, if it has
/// any; the flag says whether its label changed.
pub open spec fn update_node(lab: Map<u128, u128>, node: u128, edges: Seq<(u128, u128)>) -> (
    Map<u128, u128>,
    bool,
) {
    let nb = neighbors(edges, node);
    if nb.len() == 0 {
        (lab, false)
    } else {
        match best_label(lab, nb) {
            None => (lab, false),
            Some(b) => if lab[node] != b {
                (lab.insert(node, b), true)
            } else {
                (lab, false)
            },
        }
    }
}

/// The labels after updating the first `k` nodes of `order`, one after the
/// other, and whether any label changed.
pub open spec fn round_prefix(
    lab: Map<u128, u128>,
    order: Seq<u128>,
    edges: Seq<(u128, u128)>,
    k: int,
) -> (Map<u128, u128>, bool)
    decreases k,
{
    if k <= 0 || k > order.len() {
        (lab, false)
    } else {
        let (l1, c1) = round_prefix(lab, order, edges, k - 1);
        let (l2, c2) = update_node(l1, order[k - 1], edges);
        (l2, c1 || c2)
    }
}

/// Up to `rounds` rounds over `order`, stopping after a round that changes
/// nothing.
pub open spec fn propagate(
    lab: Map<u128, u128>,
    order: Seq<u128>,
    edges: Seq<(u128, u128)>,
    rounds: nat,
) -> Map<u128, u128>
    decreases rounds,
{
    if rounds == 0 {
        lab
    } else {
        let (m, changed) = round_prefix(lab, order, edges, order.len() as int);
        if !changed {
            m
        } else {
            propagate(m, order, edges, (rounds - 1) as nat)
        }
    }
}

/// Every node labelled with itself.
pub open spec fn own_labels(nodes: Seq<u128>) -> Map<u128, u128> {
    Map::new(|n: u128| nodes.contains(n), |n: u128| n)
}

/// The ascending order on node ids.
pub open spec fn node_leq() -> spec_fn(u128, u128) -> bool {
    |a: u128, b: u128| a <= b
}

/// The community label of every node: label propagation over the edges as
/// an undirected graph, nodes visited in ascending order, at most 20 rounds.
pub open spec fn communities(nodes: Seq<u128>, edges: Seq<(u128, u128)>) -> Map<u128, u128> {
    propagate(own_labels(nodes), nodes.sort_by(node_leq()), edges, 20)
}

proof fn lemma_label_count_bound(lab: Map<u128, u128>, nbrs: Seq<u128>, l: u128)
    ensures
        label_count(lab, nbrs, l) <= nbrs.len(),
    decreases nbrs.len(),
{
    if nbrs.len() > 0 {
        lemma_label_count_bound(lab, nbrs.drop_last(), l);
    }
}

/// Sorts ids ascending (by insertion): same elements, in order.
fn sort_ids(v: &mut Vec<u128>)
    ensures
        final(v)@.to_multiset() == old(v)@.to_multiset(),
        sorted_by(final(v)@, node_leq()),
{
    broadcast use vstd::seq_lib::group_to_multiset_ensures, vstd::multiset::group_multiset_axioms,
        vstd::multiset::lemma_multiset_empty_len;

    let ghost orig = v@;
    let mut out: Vec<u128> = Vec::new();
    proof {
        assert(out@.to_multiset().len() == 0);
        assert(out@.to_multiset() =~= Multiset::<u128>::empty());
        assert(v@.to_multiset().add(Multiset::<u128>::empty()) =~= v@.to_multiset());
    }
    while v.len() > 0
        invariant
            out@.to_multiset().add(v@.to_multiset()) == orig.to_multiset(),
            sorted_by(out@, node_leq()),
        decreases v.len(),
    {
        let ghost v0 = v@;
        let e = v.pop().unwrap();
        proof {
            assert(v0 == v@.push(e));
        }
        let mut p: usize = 0;
        while p < out.len() && out[p] < e
            invariant
                p <= out@.len(),
                forall|k: int| 0 <= k < p ==> out@[k] < e,
            decreases out.len() - p,
        {
            p = p + 1;
        }
        let ghost o0 = out@;
        out.insert(p, e);
        proof {
            assert(out@ == o0.insert(p as int, e));
            vstd::seq_lib::to_multiset_insert(o0, p as int, e);
            vstd::seq_lib::to_multiset_build(v@, e);
            assert(out@.to_multiset().add(v@.to_multiset()) =~= o0.to_multiset().add(v0.to_multiset()));
            assert forall|i: int, j: int| 0 <= i < j < out@.len() implies node_leq()(out@[i], out@[j]) by {
                if j < p {
                    assert(out@[i] == o0[i] && out@[j] == o0[j]);
                } else if j == p {
                    assert(out@[i] == o0[i]);
                } else if i < p {
                    assert(out@[i] == o0[i] && out@[j] == o0[j - 1]);
                    if p < o0.len() {
                        assert(node_leq()(o0[p as int], o0[j - 1]) || p == j - 1);
                    }
                } else if i == p {
                    assert(out@[j] == o0[j - 1]);
                    assert(node_leq()(o0[p as int], o0[j - 1]) || p == j - 1);
                } else {
                    assert(out@[i] == o0[i - 1] && out@[j] == o0[j - 1]);
                }
            }
        }
    }
    proof {
        assert(v@.to_multiset().len() == 0);
        assert(v@.to_multiset() =~= Multiset::<u128>::empty());
        assert(out@.to_multiset().add(Multiset::<u128>::empty()) =~= out@.to_multiset());
    }
    *v = out;
}

fn sorted_nodes(nodes: &[u128]) -> (r: Vec<u128>)
    ensures
        r@ == nodes@.sort_by(node_leq()),
{
    let mut v: Vec<u128> = Vec::new();
    let mut i: usize = 0;
    while i < nodes.len()
        invariant
            i <= nodes.len(),
            v@ == nodes@.take(i as int),
        decreases nodes.len() - i,
    {
        v.push(nodes[i]);
        proof {
            assert(nodes@.take(i + 1) == nodes@.take(i as int).push(nodes@[i as int]));
        }
        i = i + 1;
    }
    proof {
        assert(nodes@.take(nodes.len() as int) == nodes@);
    }
    sort_ids(&mut v);
    proof {
        assert(total_ordering(node_leq()));
        nodes@.lemma_sort_by_ensures(node_leq());
        vstd::seq_lib::lemma_sorted_unique(v@, nodes@.sort_by(node_leq()), node_leq());
    }
    v
}

fn adjacency(edges: &[(u128, u128)]) -> (adj: HashMap<u128, Vec<u128>>)
    ensures
        forall|n: u128|
            #![trigger neighbors(edges@, n)]
            (adj@.contains_key(n) ==> adj@[n]@ == neighbors(edges@, n)) && (!adj@.contains_key(n)
                ==> neighbors(edges@, n).len() == 0),
{
    let mut adj: HashMap<u128, Vec<u128>> = HashMap::new();
    let mut i: usize = 0;
    while i < edges.len()
        invariant
            i <= edges.len(),
            forall|n: u128|
                #![trigger neighbors(edges@.take(i as int), n)]
                (adj@.contains_key(n) ==> adj@[n]@ == neighbors(edges@.take(i as int), n)) && (
                !adj@.contains_key(n) ==> neighbors(edges@.take(i as int), n).len() == 0),
        decreases edges.len() - i,
    {
        let (a, b) = edges[i];
        let ghost old_adj = adj@;
        let mut va = match adj.remove(&a) {
            Some(v) => v,
            None => Vec::new(),
        };
        va.push(b);
        adj.insert(a, va);
        let ghost mid = adj@;
        let mut vb = match adj.remove(&b) {
            Some(v) => v,
            None => Vec::new(),
        };
        vb.push(a);
        adj.insert(b, vb);
        proof {
            let pre = edges@.take(i as int);
            let post = edges@.take(i + 1);
            assert(post.drop_last() == pre);
            assert(post.last() == (a, b));
            assert forall|n: u128|
                #![trigger neighbors(post, n)]
                (adj@.contains_key(n) ==> adj@[n]@ == neighbors(post, n)) && (!adj@.contains_key(n)
                    ==> neighbors(post, n).len() == 0) by {
                assert(neighbors(pre, n) == neighbors(pre, n));
                if n == a {
                    assert(mid[a]@ == neighbors(pre, a).push(b));
                }
            }
        }
        i = i + 1;
    }
    proof {
        assert(edges@.take(edges.len() as int) == edges@);
    }
    adj
}

fn own_label_map(nodes: &[u128]) -> (m: HashMap<u128, u128>)
    ensures
        m@ == own_labels(nodes@),
{
    let mut m: HashMap<u128, u128> = HashMap::new();
    let mut i: usize = 0;
    proof {
        assert(m@ == own_labels(nodes@.take(0)));
    }
    while i < nodes.len()
        invariant
            i <= nodes.len(),
            m@ == own_labels(nodes@.take(i as int)),
        decreases nodes.len() - i,
    {
        m.insert(nodes[i], nodes[i]);
        proof {
            let t = nodes@.take(i + 1);
            assert(t == nodes@.take(i as int).push(nodes@[i as int]));
            assert(m@ =~= own_labels(t)) by {
                assert forall|n: u128| #[trigger] t.contains(n) <==> (nodes@.take(i as int).contains(n)
                    || n == nodes@[i as int]) by {
                    if t.contains(n) {
                        let j = choose|j: int| 0 <= j < t.len() && t[j] == n;
                        if j < i {
                            assert(nodes@.take(i as int)[j] == n);
                        }
                    }
                    if nodes@.take(i as int).contains(n) {
                        let j = choose|j: int| 0 <= j < i && nodes@.take(i as int)[j] == n;
                        assert(t[j] == n);
                    }
                    if n == nodes@[i as int] {
                        assert(t[i as int] == n);
                    }
                }
            }
        }
        i = i + 1;
    }
    proof {
        assert(nodes@.take(nodes.len() as int) == nodes@);
    }
    m
}

fn best_for(labels: &HashMap<u128, u128>, nbrs: &Vec<u128>) -> (r: Option<u128>)
    ensures
        r == best_label(labels@, nbrs@),
{
    let ghost lab = labels@;
    let mut freq: HashMap<u128, usize> = HashMap::new();
    let mut j: usize = 0;
    while j < nbrs.len()
        invariant
            j <= nbrs.len(),
            lab == labels@,
            forall|l: u128|
                #![trigger label_count(lab, nbrs@.take(j as int), l)]
                (freq@.contains_key(l) ==> freq@[l] == label_count(lab, nbrs@.take(j as int), l))
                    && (!freq@.contains_key(l) ==> label_count(lab, nbrs@.take(j as int), l) == 0),
        decreases nbrs.len() - j,
    {
        let x = nbrs[j];
        let ghost pre = nbrs@.take(j as int);
        proof {
            assert(nbrs@.take(j + 1).drop_last() == pre);
            assert(nbrs@.take(j + 1).last() == x);
        }
        match labels.get(&x) {
            Some(l) => {
                let l = *l;
                let c: usize = match freq.get(&l) {
                    Some(c) => *c,
                    None => 0,
                };
                proof {
                    lemma_label_count_bound(lab, pre, l);
                }
                freq.insert(l, c + 1);
            },
            None => {},
        }
        proof {
            assert forall|l: u128|
                #![trigger label_count(lab, nbrs@.take(j + 1), l)]
                (freq@.contains_key(l) ==> freq@[l] == label_count(lab, nbrs@.take(j + 1), l)) && (
                !freq@.contains_key(l) ==> label_count(lab, nbrs@.take(j + 1), l) == 0) by {
                assert(label_count(lab, nbrs@.take(j + 1), l) == label_count(lab, pre, l) + if lab.contains_key(x) && lab[x] == l { 1nat } else { 0nat });
            }
        }
        j = j + 1;
    }
    proof {
        assert(nbrs@.take(nbrs.len() as int) == nbrs@);
    }
    let mut best: Option<u128> = None;
    let mut best_count: usize = 0;
    let mut k: usize = 0;
    while k < nbrs.len()
        invariant
            k <= nbrs.len(),
            lab == labels@,
            forall|l: u128|
                #![trigger label_count(lab, nbrs@, l)]
                (freq@.contains_key(l) ==> freq@[l] == label_count(lab, nbrs@, l)) && (
                !freq@.contains_key(l) ==> label_count(lab, nbrs@, l) == 0),
            best == best_among(lab, nbrs@, k as int),
            best matches Some(b) ==> best_count == label_count(lab, nbrs@, b),
        decreases nbrs.len() - k,
    {
        let x = nbrs[k];
        match labels.get(&x) {
            Some(l) => {
                let l = *l;
                let c: usize = match freq.get(&l) {
                    Some(c) => *c,
                    None => 0,
                };
                proof {
                    assert(c == label_count(lab, nbrs@, l));
                }
                match best {
                    None => {
                        best = Some(l);
                        best_count = c;
                    },
                    Some(b) => {
                        if c > best_count || (c == best_count && l < b) {
                            best = Some(l);
                            best_count = c;
                        }
                    },
                }
            },
            None => {},
        }
        k = k + 1;
    }
    best
}

/// Community detection by label propagation: every node starts with its own
/// label; in each of at most 20 rounds the nodes, in ascending order, take
/// the most frequent label among their neighbours (edges taken both ways; the
/// smallest label on a tie), and the rounds stop once one changes nothing.
/// Returns each node's final label.
pub fn label_propagation(nodes: &[u128], edges: &[(u128, u128)]) -> (labels: HashMap<u128, u128>)
    ensures
        labels@ == communities(nodes@, edges@),
{
    let adj = adjacency(edges);
    let mut labels = own_label_map(nodes);
    let order = sorted_nodes(nodes);
    proof {
        assert(total_ordering(node_leq()));
        nodes@.lemma_sort_by_ensures(node_leq());
    }
    let ghost init = labels@;
    let mut rounds: usize = 0;
    let mut done = false;
    while rounds < 20 && !done
        invariant
            rounds <= 20,
            forall|n: u128|
                #![trigger neighbors(edges@, n)]
                (adj@.contains_key(n) ==> adj@[n]@ == neighbors(edges@, n)) && (!adj@.contains_key(n)
                    ==> neighbors(edges@, n).len() == 0),
            order@ == nodes@.sort_by(node_leq()),
            forall|x: u128| #[trigger] order@.contains(x) ==> nodes@.contains(x),
            forall|n: u128| #[trigger] labels@.contains_key(n) <==> nodes@.contains(n),
            init == own_labels(nodes@),
            done ==> labels@ == propagate(init, order@, edges@, 20),
            !done ==> propagate(init, order@, edges@, 20) == propagate(
                labels@,
                order@,
                edges@,
                (20 - rounds) as nat,
            ),
        decreases 20 - rounds,
    {
        let ghost start = labels@;
        let mut changed = false;
        let mut k: usize = 0;
        while k < order.len()
            invariant
                k <= order.len(),
                forall|n: u128|
                    #![trigger neighbors(edges@, n)]
                    (adj@.contains_key(n) ==> adj@[n]@ == neighbors(edges@, n)) && (
                    !adj@.contains_key(n) ==> neighbors(edges@, n).len() == 0),
                (labels@, changed) == round_prefix(start, order@, edges@, k as int),
                forall|x: u128| #[trigger] order@.contains(x) ==> nodes@.contains(x),
                forall|n: u128| #[trigger] labels@.contains_key(n) <==> nodes@.contains(n),
            decreases order.len() - k,
        {
            let node = order[k];
            proof {
                assert(order@.contains(node));
            }
            match adj.get(&node) {
                Some(nbrs) => {
                    if nbrs.len() > 0 {
                        match best_for(&labels, nbrs) {
                            Some(b) => {
                                let cur = match labels.get(&node) {
                                    Some(c) => *c,
                                    None => b,
                                };
                                if cur != b {
                                    labels.insert(node, b);
                                    changed = true;
                                }
                            },
                            None => {},
                        }
                    }
                },
                None => {},
            }
            k = k + 1;
        }
        if !changed {
            done = true;
        }
        rounds = rounds + 1;
    }
    labels
}


// ---------------------------------------------------------------------------
// Community labels
// ---------------------------------------------------------------------------

/// How many leading characters `a` and `b` share.
pub open spec fn common_len(a: Seq<char>, b: Seq<char>) -> nat
    decreases a.len(),
{
    if a.len() == 0 || b.len() == 0 || a[0] != b[0] {
        0
    } else {
        1 + common_len(a.drop_first(), b.drop_first())
    }
}

/// The prefix length kept by the walk over `ps[1..k]`: the byte
/// length of the first path, lowered to each shared-character count.
pub open spec fn kept_len(ps: Seq<Seq<char>>, k: int) -> nat
    decreases k,
{
    if k <= 1 {
        crate::text::byte_len(ps[0])
    } else {
        let m = kept_len(ps, k - 1);
        let c = common_len(ps[0], ps[k - 1]);
        if c < m {
            c
        } else {
            m
        }
    }
}

/// The number of leading characters of `s` that take exactly `n` bytes.
pub open spec fn chars_in_bytes(s: Seq<char>, n: int) -> Option<int>
    decreases s.len(),
{
    if n == 0 {
        Some(0)
    } else if s.len() == 0 || n < 0 {
        None
    } else {
        match chars_in_bytes(s.drop_first(), n - crate::text::utf8_width(s[0])) {
            Some(k) => Some(k + 1),
            None => None,
        }
    }
}

/// Position of the last `c` in `p`.
pub open spec fn last_index_of(p: Seq<char>, c: char) -> Option<int>
    decreases p.len(),
{
    if p.len() == 0 {
        None
    } else if p.last() == c {
        Some(p.len() - 1)
    } else {
        last_index_of(p.drop_last(), c)
    }
}

/// `p` up to (not including) its last `/`; all of `p` if it has none.
pub open spec fn dir_part(p: Seq<char>) -> Seq<char> {
    match last_index_of(p, '/') {
        Some(i) => p.take(i),
        None => p,
    }
}

/// The kept prefix of the first path falls on a character boundary.
pub open spec fn prefix_on_boundary(ps: Seq<Seq<char>>) -> bool {
    ps.len() >= 2 ==> chars_in_bytes(ps[0], kept_len(ps, ps.len() as int) as int) is Some
}

/// The common directory of `ps`: the directory part of a single path, or of
/// the prefix the paths share.
pub open spec fn common_dir(ps: Seq<Seq<char>>) -> Seq<char> {
    if ps.len() == 0 {
        Seq::empty()
    } else if ps.len() == 1 {
        dir_part(ps[0])
    } else {
        match chars_in_bytes(ps[0], kept_len(ps, ps.len() as int) as int) {
            Some(k) => dir_part(ps[0].take(k)),
            None => Seq::empty(),
        }
    }
}

proof fn lemma_common_len_bound(a: Seq<char>, b: Seq<char>)
    ensures
        common_len(a, b) <= a.len(),
        common_len(a, b) <= b.len(),
    decreases a.len(),
{
    if a.len() > 0 && b.len() > 0 && a[0] == b[0] {
        lemma_common_len_bound(a.drop_first(), b.drop_first());
    }
}

fn common_len_exec(a: &[char], b: &[char]) -> (n: usize)
    ensures
        n == common_len(a@, b@),
{
    let mut i: usize = 0;
    proof {
        assert(a@.skip(0) == a@);
        assert(b@.skip(0) == b@);
    }
    while i < a.len() && i < b.len() && a[i] == b[i]
        invariant
            i <= a.len(),
            i <= b.len(),
            common_len(a@, b@) == i + common_len(a@.skip(i as int), b@.skip(i as int)),
        decreases a.len() - i,
    {
        proof {
            assert(a@.skip(i as int).drop_first() == a@.skip(i + 1));
            assert(b@.skip(i as int).drop_first() == b@.skip(i + 1));
        }
        i = i + 1;
    }
    i
}

fn last_index_exec(p: &[char], c: char) -> (r: Option<usize>)
    ensures
        match r {
            Some(i) => last_index_of(p@, c) == Some(i as int) && i < p.len(),
            None => last_index_of(p@, c) is None,
        },
{
    let mut i: usize = p.len();
    proof {
        assert(p@.take(p.len() as int) == p@);
    }
    while i > 0
        invariant
            i <= p.len(),
            last_index_of(p@, c) == last_index_of(p@.take(i as int), c),
        decreases i,
    {
        proof {
            assert(p@.take(i as int).drop_last() == p@.take(i - 1));
        }
        if p[i - 1] == c {
            return Some(i - 1);
        }
        i = i - 1;
    }
    None
}

fn dir_part_exec(p: &[char]) -> (r: Vec<char>)
    ensures
        r@ == dir_part(p@),
{
    match last_index_exec(p, '/') {
        Some(i) => crate::scan::slice_chars(p, 0, i),
        None => crate::scan::slice_chars(p, 0, p.len()),
    }
}

/// The common directory of a set of file paths (`common_dir`). The shared
/// prefix is measured in characters but the first path is cut at that many
/// bytes, so the cut has to fall on a character boundary.
pub fn longest_common_path_prefix(paths: &[String]) -> (r: String)
    requires
        prefix_on_boundary(views(paths@)),
    ensures
        r@ == common_dir(views(paths@)),
{
    let ghost ps = views(paths@);
    if paths.len() == 0 {
        return String::new();
    }
    let first = crate::text::chars_of(paths[0].as_str());
    proof {
        assert(ps[0] == paths@[0]@);
    }
    if paths.len() == 1 {
        let d = dir_part_exec(&first);
        return crate::text::string_of(&d);
    }
    let mut prefix_len: u128 = 0;
    let mut b: usize = 0;
    while b < first.len()
        invariant
            b <= first.len(),
            prefix_len == crate::text::byte_len(first@.take(b as int)),
            prefix_len <= 4 * b,
        decreases first.len() - b,
    {
        proof {
            assert(first@.take(b + 1).drop_last() == first@.take(b as int));
        }
        prefix_len = prefix_len + crate::text::char_width(first[b]) as u128;
        b = b + 1;
    }
    proof {
        assert(first@.take(first.len() as int) == first@);
        assert(prefix_len == kept_len(ps, 1));
    }
    let mut k: usize = 1;
    while k < paths.len()
        invariant
            1 <= k <= paths.len(),
            ps == views(paths@),
            first@ == ps[0],
            prefix_len == kept_len(ps, k as int),
        decreases paths.len() - k,
    {
        let other = crate::text::chars_of(paths[k].as_str());
        proof {
            assert(ps[k as int] == paths@[k as int]@);
        }
        let common = common_len_exec(&first, &other);
        if (common as u128) < prefix_len {
            prefix_len = common as u128;
        }
        k = k + 1;
    }
    let mut n: usize = 0;
    let mut bytes: u128 = 0;
    while bytes < prefix_len && n < first.len()
        invariant
            n <= first.len(),
            bytes <= prefix_len,
            chars_in_bytes(first@, prefix_len as int) matches Some(m) ==> (
                chars_in_bytes(first@.skip(n as int), prefix_len - bytes) == Some(m - n)),
            chars_in_bytes(first@, prefix_len as int) is Some,
            bytes == crate::text::byte_len(first@.take(n as int)),
        decreases first.len() - n,
    {
        proof {
            assert(first@.skip(n as int).drop_first() == first@.skip(n + 1));
            assert(first@.take(n + 1).drop_last() == first@.take(n as int));
        }
        let w = crate::text::char_width(first[n]) as u128;
        if w > prefix_len - bytes {
            proof {
                let t = first@.skip(n as int);
                assert(t[0] == first@[n as int]);
                assert(chars_in_bytes(t.drop_first(), prefix_len - bytes - w) is None);
                assert(chars_in_bytes(t, prefix_len - bytes) is None);
            }
            bytes = prefix_len;
        } else {
            bytes = bytes + w;
            n = n + 1;
        }
    }
    proof {
        let m = chars_in_bytes(first@, prefix_len as int)->0;
        assert(m == n);
    }
    let cut = crate::scan::slice_chars(&first, 0, n);
    proof {
        assert(cut@ == first@.take(n as int));
    }
    let d = dir_part_exec(&cut);
    crate::text::string_of(&d)
}

/// Lexicographic order on character sequences (the order of `str`).
pub open spec fn str_le(a: Seq<char>, b: Seq<char>) -> bool
    decreases a.len(),
{
    if a.len() == 0 {
        true
    } else if b.len() == 0 {
        false
    } else if a[0] != b[0] {
        a[0] < b[0]
    } else {
        str_le(a.drop_first(), b.drop_first())
    }
}

/// `str_le` as a relation.
pub open spec fn str_leq() -> spec_fn(Seq<char>, Seq<char>) -> bool {
    |a: Seq<char>, b: Seq<char>| str_le(a, b)
}

proof fn lemma_str_le_total(a: Seq<char>, b: Seq<char>)
    ensures
        str_le(a, a),
        str_le(a, b) || str_le(b, a),
        str_le(a, b) && str_le(b, a) ==> a == b,
    decreases a.len(),
{
    if a.len() > 0 {
        lemma_str_le_total(a.drop_first(), a.drop_first());
        if b.len() > 0 {
            lemma_str_le_total(a.drop_first(), b.drop_first());
            if a[0] == b[0] && str_le(a, b) && str_le(b, a) {
                assert(a == seq![a[0]] + a.drop_first());
                assert(b == seq![b[0]] + b.drop_first());
            }
        }
    } else if b.len() == 0 {
        assert(a == b);
    }
}

proof fn lemma_str_le_trans(a: Seq<char>, b: Seq<char>, c: Seq<char>)
    requires
        str_le(a, b),
        str_le(b, c),
    ensures
        str_le(a, c),
    decreases a.len(),
{
    if a.len() > 0 && b.len() > 0 && c.len() > 0 && a[0] == b[0] && b[0] == c[0] {
        lemma_str_le_trans(a.drop_first(), b.drop_first(), c.drop_first());
    }
}

pub proof fn lemma_str_leq_total_ordering()
    ensures
        total_ordering(str_leq()),
{
    assert forall|a: Seq<char>| #[trigger] str_leq()(a, a) by {
        lemma_str_le_total(a, a);
    }
    assert forall|a: Seq<char>, b: Seq<char>| #[trigger] str_leq()(a, b) && #[trigger] str_leq()(b, a) implies a == b by {
        lemma_str_le_total(a, b);
    }
    assert forall|a: Seq<char>, b: Seq<char>, c: Seq<char>| #[trigger] str_leq()(a, b) && #[trigger] str_leq()(b, c) implies str_leq()(a, c) by {
        lemma_str_le_trans(a, b, c);
    }
    assert forall|a: Seq<char>, b: Seq<char>| #[trigger] str_leq()(a, b) || #[trigger] str_leq()(b, a) by {
        lemma_str_le_total(a, b);
    }
}

/// `s` with each run of equal neighbours reduced to one (`Vec::dedup`).
pub open spec fn dedup_seq(s: Seq<Seq<char>>) -> Seq<Seq<char>>
    decreases s.len(),
{
    if s.len() <= 1 {
        s
    } else {
        let r = dedup_seq(s.drop_last());
        if s.last() == s[s.len() - 2] {
            r
        } else {
            r.push(s.last())
        }
    }
}

/// `dedup_seq` keeps the members of a sequence and its last element.
pub proof fn lemma_dedup_members(s: Seq<Seq<char>>)
    ensures
        forall|x: Seq<char>| #[trigger] dedup_seq(s).contains(x) <==> s.contains(x),
        s.len() > 0 ==> dedup_seq(s).len() > 0 && dedup_seq(s).last() == s.last(),
    decreases s.len(),
{
    if s.len() > 1 {
        lemma_dedup_members(s.drop_last());
        let r = dedup_seq(s.drop_last());
        assert forall|x: Seq<char>| #[trigger] dedup_seq(s).contains(x) <==> s.contains(x) by {
            if s.contains(x) && !s.drop_last().contains(x) {
                let w = choose|w: int| 0 <= w < s.len() && s[w] == x;
                if w < s.len() - 1 {
                    assert(s.drop_last()[w] == x);
                }
                assert(x == s.last());
                if s.last() == s[s.len() - 2] {
                    assert(s.drop_last().contains(x)) by {
                        assert(s.drop_last()[s.len() - 2] == x);
                    }
                } else {
                    assert(dedup_seq(s)[dedup_seq(s).len() - 1] == x);
                }
            }
            if s.drop_last().contains(x) {
                let w = choose|w: int| 0 <= w < s.drop_last().len() && s.drop_last()[w] == x;
                assert(s[w] == x);
                assert(r.contains(x));
                let v = choose|v: int| 0 <= v < r.len() && r[v] == x;
                if s.last() != s[s.len() - 2] {
                    assert(dedup_seq(s)[v] == x);
                }
            }
            if dedup_seq(s).contains(x) {
                let v = choose|v: int| 0 <= v < dedup_seq(s).len() && dedup_seq(s)[v] == x;
                if s.last() != s[s.len() - 2] && v == r.len() {
                    assert(s[s.len() - 1] == x);
                } else {
                    assert(r[v] == x);
                    assert(r.contains(x));
                    assert(s.drop_last().contains(x));
                    let w = choose|w: int| 0 <= w < s.drop_last().len() && s.drop_last()[w] == x;
                    assert(s[w] == x);
                }
            }
        }
    } else if s.len() == 1 {
        assert(dedup_seq(s) == s);
    }
}

/// Deduplicating a sorted sequence leaves it strictly increasing.
pub proof fn lemma_dedup_sorted_increasing(s: Seq<Seq<char>>)
    requires
        sorted_by(s, str_leq()),
    ensures
        forall|i: int, j: int| 0 <= i < j < dedup_seq(s).len() ==> #[trigger] dedup_seq(s)[i] != #[trigger] dedup_seq(s)[j]
            && str_le(dedup_seq(s)[i], dedup_seq(s)[j]),
        forall|x: Seq<char>| #[trigger] dedup_seq(s).contains(x) ==> s.contains(x),
        s.len() > 0 ==> dedup_seq(s).len() > 0 && dedup_seq(s).last() == s.last(),
    decreases s.len(),
{
    lemma_dedup_members(s);
    if s.len() > 1 {
        let t = s.drop_last();
        assert(sorted_by(t, str_leq())) by {
            assert forall|i: int, j: int| 0 <= i < j < t.len() implies #[trigger] str_leq()(t[i], t[j]) by {
                assert(t[i] == s[i] && t[j] == s[j]);
            }
        }
        lemma_dedup_sorted_increasing(t);
        let r = dedup_seq(t);
        let d = dedup_seq(s);
        lemma_str_leq_total_ordering();
        if s.last() != s[s.len() - 2] {
            assert(d == r.push(s.last()));
            assert forall|i: int, j: int| 0 <= i < j < d.len() implies #[trigger] d[i] != #[trigger] d[j] && str_le(
                d[i],
                d[j],
            ) by {
                if j == d.len() - 1 {
                    assert(d[i] == r[i]);
                    assert(r.contains(r[i]));
                    assert(t.contains(r[i]));
                    let w = choose|w: int| 0 <= w < t.len() && t[w] == r[i];
                    assert(str_leq()(s[w], s[s.len() - 1]));
                    assert(str_leq()(s[s.len() - 2], s[s.len() - 1]));
                    if d[i] == d[j] {
                        // r's last element is s[len-2] and r[i] <= it <= s.last()
                        assert(r.last() == t.last());
                        if i < r.len() - 1 {
                            assert(str_le(r[i], r[r.len() - 1]));
                        }
                        assert(str_leq()(r[i], t.last()));
                        assert(str_leq()(t.last(), s.last()));
                        assert(t.last() == s[s.len() - 2]);
                    }
                } else {
                    assert(d[i] == r[i] && d[j] == r[j]);
                }
            }
        } else {
            assert(d == r);
        }
    }
}


/// At most the first three elements of `s` (`iter().take(3)`).
pub open spec fn first3(s: Seq<Seq<char>>) -> Seq<Seq<char>> {
    if s.len() <= 3 {
        s
    } else {
        s.take(3)
    }
}

/// The label of a community: the common directory of its members' files and
/// its first three distinct symbol names in order, as `dir (a, b, c)`;
/// `unknown` for no members.
pub open spec fn community_label(names: Seq<Seq<char>>, paths: Seq<Seq<char>>) -> Seq<char> {
    if names.len() == 0 {
        "unknown"@
    } else {
        let top = first3(dedup_seq(names.sort_by(str_leq())));
        let prefix = common_dir(paths);
        if top.len() == 0 {
            prefix
        } else {
            prefix + " ("@ + join(top, ", "@) + ")"@
        }
    }
}

/// The names of the members.
pub open spec fn member_names(m: Seq<(u128, String, String)>) -> Seq<Seq<char>> {
    m.map_values(|x: (u128, String, String)| x.1@)
}

/// The file paths of the members.
pub open spec fn member_paths(m: Seq<(u128, String, String)>) -> Seq<Seq<char>> {
    m.map_values(|x: (u128, String, String)| x.2@)
}

proof fn lemma_views_push(v: Seq<String>, x: String)
    ensures
        views(v.push(x)) == views(v).push(x@),
        views(v).len() == v.len(),
{
    assert(views(v.push(x)) =~= views(v).push(x@));
}

proof fn lemma_views_empty(v: Seq<String>)
    requires
        v.len() == 0,
    ensures
        views(v) == Seq::<Seq<char>>::empty(),
{
    assert(views(v) =~= Seq::<Seq<char>>::empty());
}

/// Whether `a` comes at or before `b` in character order.
pub fn str_le_exec(a: &str, b: &str) -> (r: bool)
    ensures
        r == str_le(a@, b@),
{
    let x = crate::text::chars_of(a);
    let y = crate::text::chars_of(b);
    let mut i: usize = 0;
    proof {
        assert(a@.skip(0) == a@);
        assert(b@.skip(0) == b@);
    }
    while i < x.len() && i < y.len() && x[i] == y[i]
        invariant
            i <= x.len(),
            i <= y.len(),
            x@ == a@,
            y@ == b@,
            str_le(a@, b@) == str_le(a@.skip(i as int), b@.skip(i as int)),
        decreases x.len() - i,
    {
        proof {
            assert(a@.skip(i as int).drop_first() == a@.skip(i + 1));
            assert(b@.skip(i as int).drop_first() == b@.skip(i + 1));
        }
        i = i + 1;
    }
    if i == x.len() {
        true
    } else if i == y.len() {
        false
    } else {
        x[i] < y[i]
    }
}

/// Whether `a` sorts strictly before `b` in the order of `str` (`str_le`,
/// lexicographic by code point, which UTF-8 byte order agrees with).
pub fn str_lt(a: &str, b: &str) -> (r: bool)
    ensures
        r == (str_le(a@, b@) && a@ != b@),
{
    proof {
        lemma_str_le_total(a@, b@);
        lemma_str_le_total(b@, a@);
    }
    str_le_exec(a, b) && !str_le_exec(b, a)
}

/// Sorts strings ascending in the order of `str` (by insertion): same
/// elements, in order.
pub(crate) fn sort_strings(v: &mut Vec<String>)
    ensures
        views(final(v)@).to_multiset() == views(old(v)@).to_multiset(),
        sorted_by(views(final(v)@), str_leq()),
{
    broadcast use vstd::seq_lib::group_to_multiset_ensures, vstd::multiset::group_multiset_axioms,
        vstd::multiset::lemma_multiset_empty_len;

    let ghost orig = views(v@);
    let mut out: Vec<String> = Vec::new();
    proof {
        lemma_str_leq_total_ordering();
        assert(views(out@).len() == 0);
        assert(views(out@).to_multiset().len() == 0);
        assert(views(out@).to_multiset() =~= Multiset::<Seq<char>>::empty());
        assert(orig.to_multiset().add(Multiset::<Seq<char>>::empty()) =~= orig.to_multiset());
    }
    while v.len() > 0
        invariant
            views(out@).to_multiset().add(views(v@).to_multiset()) == orig.to_multiset(),
            sorted_by(views(out@), str_leq()),
            total_ordering(str_leq()),
        decreases v.len(),
    {
        let ghost v0 = v@;
        let e = v.pop().unwrap();
        let ghost ev = e@;
        proof {
            assert(v0 == v@.push(e));
            assert(views(v0) =~= views(v@).push(ev));
        }
        let mut p: usize = 0;
        while p < out.len() && str_lt(out[p].as_str(), e.as_str())
            invariant
                p <= out@.len(),
                ev == e@,
                forall|k: int| 0 <= k < p ==> str_le(#[trigger] out@[k]@, ev) && out@[k]@ != ev,
            decreases out.len() - p,
        {
            p = p + 1;
        }
        let ghost o0 = out@;
        let ghost w0 = views(o0);
        proof {
            if p < out.len() {
                assert(str_leq()(ev, w0[p as int]) || str_leq()(w0[p as int], ev));
                if !str_le(ev, w0[p as int]) {
                    assert(str_le(w0[p as int], ev));
                    assert(w0[p as int] == ev);
                }
            }
        }
        out.insert(p, e);
        proof {
            assert(views(out@) =~= w0.insert(p as int, ev));
            vstd::seq_lib::to_multiset_insert(w0, p as int, ev);
            vstd::seq_lib::to_multiset_build(views(v@), ev);
            assert(views(out@).to_multiset().add(views(v@).to_multiset()) =~= w0.to_multiset().add(
                views(v0).to_multiset(),
            ));
            let w = views(out@);
            assert forall|i: int, j: int| 0 <= i < j < w.len() implies str_leq()(w[i], w[j]) by {
                if j < p {
                    assert(w[i] == w0[i] && w[j] == w0[j]);
                } else if j == p {
                    assert(w[i] == w0[i] && w[j] == ev);
                    assert(o0[i]@ == w0[i]);
                } else if i < p {
                    assert(w[i] == w0[i] && w[j] == w0[j - 1]);
                } else if i == p {
                    assert(w[i] == ev && w[j] == w0[j - 1]);
                    if p < j - 1 {
                        assert(str_leq()(w0[p as int], w0[j - 1]));
                    }
                } else {
                    assert(w[i] == w0[i - 1] && w[j] == w0[j - 1]);
                }
            }
        }
    }
    proof {
        assert(views(v@).len() == 0);
        assert(views(v@).to_multiset().len() == 0);
        assert(views(v@).to_multiset() =~= Multiset::<Seq<char>>::empty());
        assert(views(out@).to_multiset().add(Multiset::<Seq<char>>::empty()) =~= views(out@).to_multiset());
    }
    *v = out;
}

fn push_string(out: &mut String, t: &String)
    ensures
        final(out)@ == old(out)@ + t@,
{
    crate::text::push_str(out, t.as_str());
}

/// Derives a readable label for a community from its members
/// `(symbol id, name, file path)` (`community_label`).
pub fn infer_community_label(members: &[(u128, String, String)], internal_edges: usize) -> (r: String)
    requires
        prefix_on_boundary(member_paths(members@)),
    ensures
        r@ == community_label(member_names(members@), member_paths(members@)),
{
    if members.len() == 0 {
        return String::from_str("unknown");
    }
    let mut paths: Vec<String> = Vec::new();
    let mut names: Vec<String> = Vec::new();
    let mut i: usize = 0;
    proof {
        lemma_views_empty(paths@);
        assert(member_paths(members@).take(0) =~= Seq::<Seq<char>>::empty());
        assert(member_names(members@).take(0) =~= Seq::<Seq<char>>::empty());
    }
    while i < members.len()
        invariant
            i <= members.len(),
            views(paths@) == member_paths(members@).take(i as int),
            views(names@) == member_names(members@).take(i as int),
        decreases members.len() - i,
    {
        let p = crate::text::copy_string(&members[i].2);
        let n = crate::text::copy_string(&members[i].1);
        proof {
            lemma_views_push(paths@, p);
            lemma_views_push(names@, n);
            assert(member_paths(members@).take(i + 1) == member_paths(members@).take(i as int).push(p@));
            assert(member_names(members@).take(i + 1) == member_names(members@).take(i as int).push(n@));
        }
        paths.push(p);
        names.push(n);
        i = i + 1;
    }
    proof {
        assert(member_paths(members@).take(members.len() as int) == member_paths(members@));
        assert(member_names(members@).take(members.len() as int) == member_names(members@));
    }
    let prefix = longest_common_path_prefix(&paths);
    let ghost unsorted = views(names@);
    sort_strings(&mut names);
    proof {
        lemma_str_leq_total_ordering();
        unsorted.lemma_sort_by_ensures(str_leq());
        vstd::seq_lib::lemma_sorted_unique(views(names@), unsorted.sort_by(str_leq()), str_leq());
    }
    let ghost sorted = views(names@);
    // The first three distinct names, in order.
    let mut top: Vec<String> = Vec::new();
    let mut j: usize = 0;
    proof {
        assert(sorted.take(0) =~= Seq::<Seq<char>>::empty());
        lemma_views_empty(top@);
        assert(dedup_seq(sorted.take(0)) == sorted.take(0));
    }
    while j < names.len()
        invariant
            j <= names.len(),
            sorted == views(names@),
            views(top@) == first3(dedup_seq(sorted.take(j as int))),
            j > 0 ==> dedup_seq(sorted.take(j as int)).len() > 0 && dedup_seq(sorted.take(j as int)).last() == sorted[j - 1],
        decreases names.len() - j,
    {
        let ghost pre = sorted.take(j as int);
        let ghost post = sorted.take(j + 1);
        proof {
            assert(post.drop_last() == pre);
            assert(post.last() == sorted[j as int]);
        }
        let fresh = j == 0 || !crate::text::str_eq(names[j].as_str(), names[j - 1].as_str());
        if fresh {
            proof {
                if j > 0 {
                    assert(post[post.len() - 2] == sorted[j - 1]);
                }
                assert(dedup_seq(post) == dedup_seq(pre).push(sorted[j as int]));
            }
            if top.len() < 3 {
                let nm = crate::text::copy_string(&names[j]);
                proof {
                    lemma_views_push(top@, nm);
                    assert(dedup_seq(pre).len() < 3);
                    assert(nm@ == sorted[j as int]);
                }
                top.push(nm);
            } else {
                proof {
                    assert(first3(dedup_seq(post)) =~= first3(dedup_seq(pre)));
                }
            }
        } else {
            proof {
                assert(post[post.len() - 2] == sorted[j - 1]);
                assert(dedup_seq(post) == dedup_seq(pre));
            }
        }
        j = j + 1;
    }
    proof {
        assert(sorted.take(names.len() as int) == sorted);
    }
    if top.len() == 0 {
        return prefix;
    }
    let mut out = prefix;
    crate::text::push_str(&mut out, " (");
    push_string(&mut out, &top[0]);
    let mut k: usize = 1;
    proof {
        assert(views(top@).take(1) == seq![views(top@)[0]]);
    }
    while k < top.len()
        invariant
            1 <= k <= top.len(),
            out@ == common_dir(member_paths(members@)) + " ("@ + join(views(top@).take(k as int), ", "@),
        decreases top.len() - k,
    {
        crate::text::push_str(&mut out, ", ");
        push_string(&mut out, &top[k]);
        proof {
            let t = views(top@).take(k + 1);
            assert(t.drop_last() == views(top@).take(k as int));
            assert(t.last() == top@[k as int]@);
        }
        k = k + 1;
    }
    crate::text::push_str(&mut out, ")");
    proof {
        assert(views(top@).take(top.len() as int) == views(top@));
    }
    out
}
// ---------------------------------------------------------------------------
// Communities from labels
// ---------------------------------------------------------------------------

/// The community label of a symbol: the one label propagation gave it, or
/// its own id.
pub open spec fn label_of(labels: Map<u128, u128>, id: u128) -> u128 {
    if labels.contains_key(id) {
        labels[id]
    } else {
        id
    }
}

/// The labels of the symbols, each once, in order of first appearance.
pub open spec fn labels_in_order(ids: Seq<u128>, labels: Map<u128, u128>) -> Seq<u128>
    decreases ids.len(),
{
    if ids.len() == 0 {
        Seq::empty()
    } else {
        let r = labels_in_order(ids.drop_last(), labels);
        let l = label_of(labels, ids.last());
        if r.contains(l) {
            r
        } else {
            r.push(l)
        }
    }
}

/// The positions, ascending, of the symbols labelled `l`.
pub open spec fn members_of(ids: Seq<u128>, labels: Map<u128, u128>, l: u128) -> Seq<int>
    decreases ids.len(),
{
    if ids.len() == 0 {
        Seq::empty()
    } else if label_of(labels, ids.last()) == l {
        members_of(ids.drop_last(), labels, l).push(ids.len() - 1)
    } else {
        members_of(ids.drop_last(), labels, l)
    }
}

proof fn lemma_labels_in_order(ids: Seq<u128>, labels: Map<u128, u128>)
    ensures
        labels_in_order(ids, labels).no_duplicates(),
        forall|l: u128| !labels_in_order(ids, labels).contains(l) ==> #[trigger] members_of(ids, labels, l).len() == 0,
    decreases ids.len(),
{
    if ids.len() > 0 {
        lemma_labels_in_order(ids.drop_last(), labels);
        let r = labels_in_order(ids.drop_last(), labels);
        let l = label_of(labels, ids.last());
        if !r.contains(l) {
            assert forall|a: int, b: int| 0 <= a < b < r.push(l).len() implies r.push(l)[a] != r.push(l)[b] by {
                if b == r.len() {
                    assert(r.push(l)[a] == r[a]);
                }
            }
        }
        let big = labels_in_order(ids, labels);
        assert(big.contains(l)) by {
            if r.contains(l) {
                assert(big == r);
            } else {
                assert(big[r.len() as int] == l);
            }
        }
        assert forall|m: u128| !big.contains(m) implies #[trigger] members_of(ids, labels, m).len() == 0 by {
            if r.contains(m) {
                let w = choose|w: int| 0 <= w < r.len() && r[w] == m;
                if r.contains(l) {
                    assert(big == r);
                } else {
                    assert(big[w] == m);
                }
            }
            assert(!r.contains(m));
            assert(m != l);
            assert(members_of(ids.drop_last(), labels, m).len() == 0);
        }
    }
}

/// The communities of the symbols: one
/// per label, in order of first appearance, each with the positions of its
/// members in `ids`; a symbol without a label is its own community.
pub fn group_by_label(ids: &Vec<u128>, labels: &HashMap<u128, u128>) -> (r: Vec<(u128, Vec<usize>)>)
    ensures
        r@.len() == labels_in_order(ids@, labels@).len(),
        forall|g: int|
            0 <= g < r@.len() ==> (#[trigger] r@[g]).0 == labels_in_order(ids@, labels@)[g] && r@[g].1@.map_values(
                |p: usize| p as int,
            ) == members_of(ids@, labels@, r@[g].0),
{
    let mut out: Vec<(u128, Vec<usize>)> = Vec::new();
    let mut i: usize = 0;
    while i < ids.len()
        invariant
            i <= ids.len(),
            out@.len() == labels_in_order(ids@.take(i as int), labels@).len(),
            forall|g: int|
                0 <= g < out@.len() ==> (#[trigger] out@[g]).0 == labels_in_order(ids@.take(i as int), labels@)[g]
                    && out@[g].1@.map_values(|p: usize| p as int) == members_of(ids@.take(i as int), labels@, out@[g].0),
        decreases ids.len() - i,
    {
        let ghost pre = ids@.take(i as int);
        let ghost post = ids@.take(i + 1);
        let id = ids[i];
        let l = match labels.get(&id) {
            Some(x) => *x,
            None => id,
        };
        proof {
            assert(post.drop_last() == pre);
            assert(post.last() == id);
            lemma_labels_in_order(pre, labels@);
        }
        let ghost o_before = out@;
        let mut pos: Option<usize> = None;
        let mut gi: usize = 0;
        while gi < out.len()
            invariant
                out@ == o_before,
                gi <= out@.len(),
                match pos {
                    Some(p) => p < gi && out@[p as int].0 == l,
                    None => forall|g: int| 0 <= g < gi ==> (#[trigger] out@[g]).0 != l,
                },
            decreases out@.len() - gi,
        {
            if pos.is_none() && out[gi].0 == l {
                pos = Some(gi);
            }
            gi = gi + 1;
        }
        let ghost lp = labels_in_order(pre, labels@);
        if let Some(gi) = pos {
            proof {
                assert(lp.contains(l)) by {
                    assert(lp[gi as int] == l);
                }
            }
            let (lab, mut ms) = out.remove(gi);
            let ghost m0 = ms@;
            ms.push(i);
            proof {
                assert(ms@.map_values(|p: usize| p as int) =~= m0.map_values(|p: usize| p as int).push(i as int));
            }
            out.insert(gi, (lab, ms));
            proof {
                assert forall|g: int|
                    0 <= g < out@.len() implies (#[trigger] out@[g]).0 == labels_in_order(post, labels@)[g]
                        && out@[g].1@.map_values(|p: usize| p as int) == members_of(post, labels@, out@[g].0) by {
                    if g != gi {
                        assert(lp[g] != lp[gi as int]);
                    }
                }
            }
        } else {
            proof {
                assert(!lp.contains(l)) by {
                    if lp.contains(l) {
                        let w = choose|w: int| 0 <= w < lp.len() && lp[w] == l;
                        assert(out@[w].0 == l);
                    }
                }
                assert(members_of(pre, labels@, l).len() == 0);
            }
            let ghost o0 = out@;
            let mut ms: Vec<usize> = Vec::new();
            ms.push(i);
            out.push((l, ms));
            proof {
                assert forall|g: int|
                    0 <= g < out@.len() implies (#[trigger] out@[g]).0 == labels_in_order(post, labels@)[g]
                        && out@[g].1@.map_values(|p: usize| p as int) == members_of(post, labels@, out@[g].0) by {
                    if g < o0.len() {
                        assert(out@[g] == o0[g]);
                        assert(lp[g] != l);
                    } else {
                        assert(members_of(pre, labels@, l) =~= Seq::<int>::empty());
                        assert(out@[g].1@.map_values(|p: usize| p as int) =~= seq![i as int]);
                    }
                }
            }
        }
        i = i + 1;
    }
    proof {
        assert(ids@.take(ids.len() as int) == ids@);
    }
    out
}

// ---------------------------------------------------------------------------
// Walking the repository
// ---------------------------------------------------------------------------

/// What the repository's gitignore rules say of a path.
#[derive(Debug, Clone, Copy, PartialEq, Eq, Structural)]
pub enum IgnoreMatch {
    /// No rule matches, or there are no rules.
    Unmatched,
    /// An ignore rule matches.
    Ignore,
    /// A negated rule matches: the path is explicitly kept.
    Whitelist,
}

/// A file name the walk always skips: version control, build output and
/// dependencies.
pub open spec fn always_skipped_name(name: Seq<char>) -> bool {
    ||| name == ".git"@
    ||| name == "build"@
    ||| name == "node_modules"@
    ||| name == "target"@
    ||| name == "target-streamable"@
}

/// Whether the symbol walk skips an entry (`is_ignored_entry`), given its
/// file name (none when it has no UTF-8 name), the number of components of
/// its path relative to the repository root (none when it is not under the
/// root), and what the gitignore rules say of it. Always-skipped names are
/// skipped; the root itself never is; otherwise an entry is skipped exactly
/// when an ignore rule, and no negated rule, matches it.
pub fn is_ignored_entry(name: Option<&str>, relative_components: Option<usize>, rules: IgnoreMatch) -> (b: bool)
    ensures
        b == ((name matches Some(n) && always_skipped_name(n@)) || (relative_components matches Some(k) && k > 0
            && rules == IgnoreMatch::Ignore)),
{
    match name {
        Some(n) => {
            if crate::text::str_eq(n, ".git") || crate::text::str_eq(n, "build") || crate::text::str_eq(
                n,
                "node_modules",
            ) || crate::text::str_eq(n, "target") || crate::text::str_eq(n, "target-streamable") {
                return true;
            }
        },
        None => {},
    }
    match relative_components {
        Some(k) => k > 0 && rules == IgnoreMatch::Ignore,
        None => false,
    }
}

} // verus!
