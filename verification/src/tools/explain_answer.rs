//! Explaining an answer: the request, and how many query terms a decision
//! contains.

use vstd::prelude::*;

use crate::text::{contains_seq, str_lowercase, views};

verus! {

/// Request to explain how a query was answered.
#[derive(Debug)]
pub struct ExplainAnswerParams {
    /// Absolute path to the repository root.
    pub repo_path: String,
    /// The query to re-run with full provenance.
    pub query: String,
    /// ISO-8601 timestamp to query as-of. Defaults to current time.
    pub valid_at: Option<String>,
}

/// How many of `terms` occur in `hay`.
pub open spec fn terms_present(hay: Seq<char>, terms: Seq<Seq<char>>) -> nat
    decreases terms.len(),
{
    if terms.len() == 0 {
        0
    } else {
        terms_present(hay, terms.drop_last()) + if contains_seq(hay, terms.last()) {
            1nat
        } else {
            0nat
        }
    }
}

/// How many query terms occur in a decision's title and text (joined by a
/// space, lowercased).
pub fn term_frequency_score(title: &str, text: &str, terms: &Vec<String>) -> (n: usize)
    ensures
        n == terms_present(str_lowercase(title@ + " "@ + text@), views(terms@)),
{
    let mut joined = crate::text::string_of(&crate::text::chars_of(title));
    crate::text::push_str(&mut joined, " ");
    crate::text::push_str(&mut joined, text);
    let lower = crate::text::to_lowercase(joined.as_str());
    proof {
        assert(joined@ == title@ + " "@ + text@);
    }
    terms_present_in(lower.as_str(), terms)
}

/// How many of the query terms occur in the lowercased text `hay_text`.
pub fn terms_present_in(hay_text: &str, terms: &Vec<String>) -> (n: usize)
    ensures
        n == terms_present(hay_text@, views(terms@)),
{
    let hay = crate::text::chars_of(hay_text);
    let ghost ts = views(terms@);
    let mut n: usize = 0;
    let mut i: usize = 0;
    while i < terms.len()
        invariant
            i <= terms.len(),
            hay@ == hay_text@,
            ts == views(terms@),
            n == terms_present(hay@, ts.take(i as int)),
            n <= i,
        decreases terms.len() - i,
    {
        let needle = crate::text::chars_of(terms[i].as_str());
        proof {
            assert(ts.take(i + 1).drop_last() == ts.take(i as int));
            assert(ts.take(i + 1).last() == needle@);
        }
        if crate::text::contains_chars(&hay, &needle) {
            n = n + 1;
        }
        i = i + 1;
    }
    proof {
        assert(ts.take(terms.len() as int) == ts);
    }
    n
}

} // verus!
