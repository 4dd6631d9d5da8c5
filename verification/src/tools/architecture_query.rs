//! Architecture queries: the request limits, the fusion of the three
//! retrievals, and how long texts are cut down to snippets.

use vstd::prelude::*;

pub use crate::tools::rank_fusion::{rrf_merge, RankedDecision};

use crate::text::{chars_of, push_char, string_of, trim_spec};

verus! {

/// The number of decisions returned when the request does not say.
pub fn default_top_k() -> (n: usize)
    ensures
        n == 10,
{
    10
}

/// The graph expansion depth used when the request does not say.
pub fn default_graph_depth() -> (n: usize)
    ensures
        n == 1,
{
    1
}

/// The first `max` characters of `s` followed by an ellipsis, or all of `s`
/// when it is no longer than that.
pub open spec fn snippet_spec(s: Seq<char>, max: nat) -> Seq<char> {
    if s.len() <= max {
        s
    } else {
        s.take(max as int).push('…')
    }
}

/// Cuts `s` down to `max_chars` characters, marking the cut with `…`.
pub fn snippet(s: &str, max_chars: usize) -> (r: String)
    ensures
        r@ == snippet_spec(s@, max_chars as nat),
{
    let cs = chars_of(s);
    if cs.len() <= max_chars {
        return string_of(&cs);
    }
    let head = crate::scan::slice_chars(&cs, 0, max_chars);
    let mut r = string_of(&head);
    push_char(&mut r, '…');
    proof {
        assert(head@ == s@.take(max_chars as int));
    }
    r
}

/// Replaces every text by its snippet of at most `max_chars` characters.
pub fn truncate_texts(texts: &mut Vec<String>, max_chars: usize)
    ensures
        final(texts)@.len() == old(texts)@.len(),
        forall|i: int|
            0 <= i < final(texts)@.len() ==> #[trigger] final(texts)@[i]@ == snippet_spec(
                old(texts)@[i]@,
                max_chars as nat,
            ),
{
    let mut i: usize = 0;
    while i < texts.len()
        invariant
            i <= texts.len(),
            texts@.len() == old(texts)@.len(),
            forall|k: int| 0 <= k < i ==> #[trigger] texts@[k]@ == snippet_spec(old(texts)@[k]@, max_chars as nat),
            forall|k: int| i <= k < texts@.len() ==> #[trigger] texts@[k] == old(texts)@[k],
        decreases texts.len() - i,
    {
        let s = snippet(texts[i].as_str(), max_chars);
        texts.set(i, s);
        i = i + 1;
    }
}

/// Cuts decision texts to 280 characters and constraint texts to 160.
pub fn truncate_response_text(decision_texts: &mut Vec<String>, constraint_texts: &mut Vec<String>)
    ensures
        final(decision_texts)@.len() == old(decision_texts)@.len(),
        forall|i: int|
            0 <= i < final(decision_texts)@.len() ==> #[trigger] final(decision_texts)@[i]@
                == snippet_spec(old(decision_texts)@[i]@, 280),
        final(constraint_texts)@.len() == old(constraint_texts)@.len(),
        forall|i: int|
            0 <= i < final(constraint_texts)@.len() ==> #[trigger] final(constraint_texts)@[i]@
                == snippet_spec(old(constraint_texts)@[i]@, 160),
{
    truncate_texts(decision_texts, 280);
    truncate_texts(constraint_texts, 160);
}

/// The limits a query runs with.
#[derive(Debug, Clone, Copy)]
pub struct QueryPlan {
    /// At least one decision is returned.
    pub top_k: usize,
    /// Graph expansion goes at most two hops.
    pub graph_depth: usize,
    /// The requested depth was above two and has been capped.
    pub depth_capped: bool,
}

/// Why a query is refused before it runs.
#[derive(Debug, Clone, Copy, PartialEq, Eq, Structural)]
pub enum QueryError {
    /// The query text is empty or blank.
    EmptyQuery,
}

/// The limits of a query: refused when the query is blank; otherwise at
/// least one result and at most two hops of graph expansion.
pub fn query_plan(query: &str, top_k: usize, graph_depth: usize) -> (r: Result<QueryPlan, QueryError>)
    ensures
        trim_spec(query@).len() == 0 <==> r is Err,
        r matches Ok(p) ==> {
            &&& p.top_k == (if top_k >= 1 { top_k } else { 1 })
            &&& p.graph_depth == (if graph_depth <= 2 { graph_depth } else { 2 })
            &&& p.depth_capped == (graph_depth > 2)
        },
{
    let t = crate::text::trim(query);
    if chars_of(t.as_str()).len() == 0 {
        return Err(QueryError::EmptyQuery);
    }
    Ok(QueryPlan {
        top_k: if top_k >= 1 { top_k } else { 1 },
        graph_depth: if graph_depth <= 2 { graph_depth } else { 2 },
        depth_capped: graph_depth > 2,
    })
}

} // verus!
