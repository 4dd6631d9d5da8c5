//! Entity ids: reading UUIDs out of text.

use vstd::prelude::*;

use crate::text::{byte_len, views};

verus! {

/// The 128-bit value (big-endian, as `Uuid::as_u128` gives it) that
/// `uuid::Uuid::parse_str` reads from a text, or none when the text is not a
/// UUID in one of the forms that function accepts.
pub uninterp spec fn uuid_value(s: Seq<char>) -> Option<u128>;

/// `uuid::Uuid::parse_str`, with the parsed id handed back as
/// `Uuid::as_u128`. The result is named by `uuid_value`; of it the contract
/// also states what the crate's parser shows at a glance: only inputs of 32,
/// 36, 38 or 45 bytes (simple, hyphenated, braced, URN) can parse.
#[verifier::external_body]
pub(crate) fn parse_uuid(s: &str) -> (r: Option<u128>)
    ensures
        r == uuid_value(s@),
        r is Some ==> byte_len(s@) == 32 || byte_len(s@) == 36 || byte_len(s@) == 38 || byte_len(s@) == 45,
{
    match uuid::Uuid::parse_str(s) {
        Ok(u) => Some(u.as_u128()),
        Err(_) => None,
    }
}

/// The values of the ids among `ids` that are UUIDs, in order; the others
/// are dropped.
pub open spec fn uuids_of(ids: Seq<Seq<char>>) -> Seq<u128>
    decreases ids.len(),
{
    if ids.len() == 0 {
        Seq::empty()
    } else {
        match uuid_value(ids.last()) {
            Some(u) => uuids_of(ids.drop_last()).push(u),
            None => uuids_of(ids.drop_last()),
        }
    }
}

/// The UUIDs among a list of decision ids (`decision_uuids`): ids that do not
/// parse are skipped.
pub fn decision_uuids(ids: &Vec<String>) -> (r: Vec<u128>)
    ensures
        r@ == uuids_of(views(ids@)),
{
    let ghost t = views(ids@);
    let mut out: Vec<u128> = Vec::new();
    let mut i: usize = 0;
    while i < ids.len()
        invariant
            i <= ids.len(),
            t == views(ids@),
            out@ == uuids_of(t.take(i as int)),
        decreases ids.len() - i,
    {
        proof {
            assert(t.take(i + 1).drop_last() == t.take(i as int));
            assert(t.take(i + 1).last() == ids@[i as int]@);
        }
        match parse_uuid(ids[i].as_str()) {
            Some(u) => out.push(u),
            None => {},
        }
        i = i + 1;
    }
    proof {
        assert(t.take(ids.len() as int) == t);
    }
    out
}

} // verus!
