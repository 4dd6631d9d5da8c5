//! Timestamps: which texts `chrono` reads as RFC 3339 and the seconds they
//! name, plain dates turned into RFC 3339 midnight UTC, seconds since the
//! epoch written as RFC 3339, and times moved by whole days.

use vstd::prelude::*;

verus! {

/// Whether `chrono::DateTime::parse_from_rfc3339` accepts the text.
pub uninterp spec fn rfc3339_parses(s: Seq<char>) -> bool;

/// What `chrono` makes of a `%Y-%m-%d` date: the RFC 3339 text of its
/// midnight in UTC, or nothing when the text is not such a date.
pub uninterp spec fn ymd_midnight(s: Seq<char>) -> Option<Seq<char>>;

/// `chrono::DateTime::parse_from_rfc3339(s).is_ok()`, named by
/// `rfc3339_parses`. The contract also states what chrono's parser checks
/// first: an accepted text has at least 19 bytes, the first 19 of them ASCII
/// (digits, `-`, `T`/`t`/space and `:`), so its first 19 characters are ASCII.
#[verifier::external_body]
pub(crate) fn parses_rfc3339(s: &str) -> (b: bool)
    ensures
        b == rfc3339_parses(s@),
        b ==> s@.len() >= 19 && forall|i: int| 0 <= i < 19 ==> (#[trigger] s@[i] as u32) < 0x80,
{
    chrono::DateTime::parse_from_rfc3339(s).is_ok()
}

/// `chrono::NaiveDate::parse_from_str(s, "%Y-%m-%d")` at 00:00:00 UTC, as
/// RFC 3339 text; named by `ymd_midnight`.
#[verifier::external_body]
pub(crate) fn ymd_midnight_rfc3339(s: &str) -> (r: Option<String>)
    ensures
        match r {
            Some(t) => ymd_midnight(s@) == Some(t@),
            None => ymd_midnight(s@) is None,
        },
{
    match chrono::NaiveDate::parse_from_str(s, "%Y-%m-%d") {
        Ok(d) => match d.and_hms_opt(0, 0, 0) {
            Some(dt) => Some(dt.and_utc().to_rfc3339()),
            None => None,
        },
        Err(_) => None,
    }
}

/// A timestamp given as text: the text itself when it is RFC 3339, else the
/// midnight of a `%Y-%m-%d` date.
pub open spec fn timestamp_of(s: Seq<char>) -> Option<Seq<char>> {
    if rfc3339_parses(s) {
        Some(s)
    } else {
        ymd_midnight(s)
    }
}

/// Reads a timestamp from text (`timestamp_of`).
pub fn timestamp_from_text(s: &str) -> (r: Option<String>)
    ensures
        match r {
            Some(t) => timestamp_of(s@) == Some(t@),
            None => timestamp_of(s@) is None,
        },
{
    if parses_rfc3339(s) {
        return Some(crate::text::string_of(&crate::text::chars_of(s)));
    }
    ymd_midnight_rfc3339(s)
}

/// What `chrono` gives for an RFC 3339 time moved by whole days: the time
/// `days` days later, in UTC, as RFC 3339 text; nothing when the text is not
/// RFC 3339 or the result leaves chrono's range.
pub uninterp spec fn days_later(s: Seq<char>, days: i64) -> Option<Seq<char>>;

/// `DateTime::parse_from_rfc3339`, `with_timezone(&Utc)`,
/// `checked_add_signed(TimeDelta::try_days(days))`, `to_rfc3339`; named by
/// `days_later`. Besides the name the contract states two facts the crate's
/// source shows: a result needs a text that parses, and a text that parses
/// (its year has four digits) always gives one when moved by at most a
/// hundred years, far inside chrono's range of about 262,000 years.
#[verifier::external_body]
pub(crate) fn rfc3339_days_later(s: &str, days: i64) -> (r: Option<String>)
    ensures
        match r {
            Some(t) => days_later(s@, days) == Some(t@),
            None => days_later(s@, days) is None,
        },
        r is Some ==> rfc3339_parses(s@),
        rfc3339_parses(s@) && -36500 <= days <= 36500 ==> r is Some,
{
    let dt = match chrono::DateTime::parse_from_rfc3339(s) {
        Ok(dt) => dt,
        Err(_) => return None,
    };
    let delta = chrono::TimeDelta::try_days(days)?;
    match dt.with_timezone(&chrono::Utc).checked_add_signed(delta) {
        Some(t) => Some(t.to_rfc3339()),
        None => None,
    }
}

/// The seconds since the Unix epoch of an RFC 3339 time, as `chrono` reads
/// it (`DateTime::parse_from_rfc3339(s)?.timestamp()`).
pub uninterp spec fn rfc3339_seconds(s: Seq<char>) -> Option<i64>;

/// `DateTime::parse_from_rfc3339` followed by `timestamp`; named by
/// `rfc3339_seconds`. The contract also states that a result comes exactly
/// when the text parses, and that such a text begins with 19 ASCII
/// characters (the parser reads its first 19 bytes as digits and ASCII
/// separators).
#[verifier::external_body]
pub(crate) fn rfc3339_timestamp(s: &str) -> (r: Option<i64>)
    ensures
        r == rfc3339_seconds(s@),
        r is Some <==> rfc3339_parses(s@),
        r is Some ==> s@.len() >= 19 && forall|i: int| 0 <= i < 19 ==> (#[trigger] s@[i] as u32) < 0x80,
{
    match chrono::DateTime::parse_from_rfc3339(s) {
        Ok(dt) => Some(dt.timestamp()),
        Err(_) => None,
    }
}

/// The RFC 3339 text, in UTC, of a number of seconds since the Unix epoch, as
/// `chrono` writes it; nothing when the time is outside chrono's range.
pub uninterp spec fn epoch_text(secs: i64) -> Option<Seq<char>>;

/// `DateTime::from_timestamp(secs, 0)` followed by `to_rfc3339`; named by
/// `epoch_text`.
#[verifier::external_body]
pub(crate) fn epoch_rfc3339(secs: i64) -> (r: Option<String>)
    ensures
        match r {
            Some(t) => epoch_text(secs) == Some(t@),
            None => epoch_text(secs) is None,
        },
{
    match chrono::DateTime::from_timestamp(secs, 0) {
        Some(dt) => Some(dt.to_rfc3339()),
        None => None,
    }
}

/// The cutoff of a commit walk: the seconds of the `since` time, when one is
/// given and it is RFC 3339; no cutoff otherwise.
pub fn since_bound(since: Option<&str>) -> (b: Option<i64>)
    ensures
        b == match since {
            Some(s) => rfc3339_seconds(s@),
            None => None,
        },
{
    match since {
        Some(s) => rfc3339_timestamp(s),
        None => None,
    }
}

/// The text of a commit time: its RFC 3339 form, or `fallback` when the
/// time is outside chrono's range.
pub fn epoch_text_or(secs: i64, fallback: &str) -> (r: String)
    ensures
        r@ == match epoch_text(secs) {
            Some(t) => t,
            None => fallback@,
        },
{
    match epoch_rfc3339(secs) {
        Some(t) => t,
        None => crate::text::string_of(&crate::text::chars_of(fallback)),
    }
}

} // verus!
