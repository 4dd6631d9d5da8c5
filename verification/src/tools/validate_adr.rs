//! Validating an ADR file: what its parsed structure must have, and the
//! consistency findings against the index.

use vstd::prelude::*;

use crate::text::{push_str, trim_spec, views};

verus! {

/// Request to validate an ADR file.
#[derive(Debug)]
pub struct ValidateAdrParams {
    pub repo_path: String,
    /// Path to the ADR file, absolute or relative to `repo_path`.
    pub adr_path: String,
}

/// The findings on an ADR.
#[derive(Debug)]
pub struct ValidateAdrResult {
    pub valid: bool,
    pub adr_id: Option<String>,
    pub title: String,
    pub status: Option<String>,
    pub errors: Vec<String>,
    pub warnings: Vec<String>,
}

/// The error for an ADR without an identifier.
pub open spec fn no_id_error() -> Seq<char> {
    "no ADR ID found — add a numeric ID to the H1 title (e.g. '# ADR-0042: Title') or use a numeric filename stem (e.g. '0042-title.md')"@
}

/// The structural errors of a parsed ADR: a blank title, a missing id.
pub open spec fn structural_errors(title: Seq<char>, has_id: bool) -> Seq<Seq<char>> {
    (if trim_spec(title).len() == 0 {
        seq!["missing H1 title"@]
    } else {
        Seq::empty()
    }) + (if !has_id {
        seq![no_id_error()]
    } else {
        Seq::empty()
    })
}

/// The structural warnings of a parsed ADR: missing Status, Context and
/// Decision sections, in that order.
pub open spec fn structural_warnings(has_status: bool, has_context: bool, has_decision: bool) -> Seq<Seq<char>> {
    (if !has_status {
        seq!["missing Status section"@]
    } else {
        Seq::empty()
    }) + (if !has_context {
        seq!["missing Context section"@]
    } else {
        Seq::empty()
    }) + (if !has_decision {
        seq!["missing Decision section"@]
    } else {
        Seq::empty()
    })
}

/// The structural findings on a parsed ADR (`structural_errors`,
/// `structural_warnings`).
pub fn structural_checks(
    title: &str,
    has_id: bool,
    has_status: bool,
    has_context: bool,
    has_decision: bool,
) -> (r: (Vec<String>, Vec<String>))
    ensures
        views(r.0@) == structural_errors(title@, has_id),
        views(r.1@) == structural_warnings(has_status, has_context, has_decision),
{
    let mut errors: Vec<String> = Vec::new();
    let t = crate::text::trim(title);
    if crate::text::chars_of(t.as_str()).len() == 0 {
        errors.push(String::from_str("missing H1 title"));
    }
    let ghost e1 = views(errors@);
    if !has_id {
        errors.push(String::from_str(
            "no ADR ID found — add a numeric ID to the H1 title (e.g. '# ADR-0042: Title') or use a numeric filename stem (e.g. '0042-title.md')",
        ));
    }
    proof {
        let a = if trim_spec(title@).len() == 0 { seq!["missing H1 title"@] } else { Seq::<Seq<char>>::empty() };
        assert(e1 =~= a);
        assert(views(errors@) =~= structural_errors(title@, has_id));
    }
    let mut warnings: Vec<String> = Vec::new();
    if !has_status {
        warnings.push(String::from_str("missing Status section"));
    }
    let ghost w1 = views(warnings@);
    if !has_context {
        warnings.push(String::from_str("missing Context section"));
    }
    let ghost w2 = views(warnings@);
    if !has_decision {
        warnings.push(String::from_str("missing Decision section"));
    }
    proof {
        let a = if !has_status { seq!["missing Status section"@] } else { Seq::<Seq<char>>::empty() };
        let b = if !has_context { seq!["missing Context section"@] } else { Seq::<Seq<char>>::empty() };
        assert(w1 =~= a);
        assert(w2 =~= a + b);
        assert(views(warnings@) =~= structural_warnings(has_status, has_context, has_decision));
    }
    (errors, warnings)
}

/// The error for an id already used by another ADR file, when the stored
/// ADR with that id lives at a different relative path.
pub fn duplicate_id_error(adr_id: &str, existing_rel: &str, relative_path: &str) -> (e: Option<String>)
    ensures
        existing_rel@ == relative_path@ <==> e is None,
        e matches Some(t) ==> t@ == "duplicate ADR ID '"@ + adr_id@ + "' already exists in: "@ + existing_rel@,
{
    if crate::text::str_eq(existing_rel, relative_path) {
        return None;
    }
    let mut t = String::from_str("duplicate ADR ID '");
    push_str(&mut t, adr_id);
    push_str(&mut t, "' already exists in: ");
    push_str(&mut t, existing_rel);
    Some(t)
}

/// The warning for a superseded ADR that names no successor.
pub fn superseded_without_successor(status_superseded: bool, has_superseded_by: bool) -> (w: Option<String>)
    ensures
        w is Some <==> status_superseded && !has_superseded_by,
        w matches Some(t) ==> t@ == "status is 'superseded' but no superseded_by reference was found"@,
{
    if status_superseded && !has_superseded_by {
        Some(String::from_str("status is 'superseded' but no superseded_by reference was found"))
    } else {
        None
    }
}

/// An ADR is valid when it has no errors.
pub fn is_valid(errors: &Vec<String>) -> (b: bool)
    ensures
        b == (errors@.len() == 0),
{
    errors.len() == 0
}

} // verus!
