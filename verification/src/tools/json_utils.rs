//! Tolerant extraction of a JSON array from a model's reply, and the
//! key/value reply format for ADR leads.
//!
//! JSON text is parsed by `serde_json` into [`JsonValue`], a tree the library
//! can read; what the parser and the serialiser return is named by
//! [`json_parse`] and [`json_text`].

use vstd::prelude::*;

use crate::scan::{find_chars, find_from, lemma_find_from, slice_chars, starts_with, starts_with_chars};
use crate::text::{
    chars_of, push_char, push_str, str_eq, string_of, trim, trim_chars, trim_spec, trim_start_chars,
    trim_start_spec,
};

verus! {

#[verifier::external_type_specification]
#[verifier::external_body]
pub struct ExJsonNumber(serde_json::Number);

#[verifier::external_type_specification]
#[verifier::external_body]
pub struct ExSerdeValue(serde_json::Value);

/// A parsed JSON document. Object members keep the order in which
/// `serde_json` iterates them.
#[derive(Debug)]
pub enum JsonValue {
    Null,
    Bool(bool),
    Number(serde_json::Number),
    Str(String),
    Array(Vec<JsonValue>),
    Object(Vec<(String, JsonValue)>),
}

/// What `serde_json::from_str::<serde_json::Value>` makes of a text, converted
/// to a [`JsonValue`]; `None` where it reports an error.
pub uninterp spec fn json_parse(text: Seq<char>) -> Option<JsonValue>;

/// The compact text that `serde_json` writes for a value (`Value::to_string`).
pub uninterp spec fn json_text(v: JsonValue) -> Seq<char>;

// ---------------------------------------------------------------------------
// The outside calls
// ---------------------------------------------------------------------------

/// Converts a `serde_json::Value` into a [`JsonValue`], variant for variant;
/// object members in the order `serde_json::Map` iterates them. No contract:
/// only the conversions below rely on it, through the names they state.
#[verifier::external_body]
fn from_serde(v: serde_json::Value) -> JsonValue {
    match v {
        serde_json::Value::Null => JsonValue::Null,
        serde_json::Value::Bool(b) => JsonValue::Bool(b),
        serde_json::Value::Number(n) => JsonValue::Number(n),
        serde_json::Value::String(s) => JsonValue::Str(s),
        serde_json::Value::Array(a) => JsonValue::Array(a.into_iter().map(from_serde).collect()),
        serde_json::Value::Object(m) => JsonValue::Object(m.into_iter().map(|(k, x)| (k, from_serde(x))).collect()),
    }
}

/// Converts a [`JsonValue`] back into a `serde_json::Value`, variant for
/// variant. No contract, as for `from_serde`.
#[verifier::external_body]
fn to_serde(v: &JsonValue) -> serde_json::Value {
    match v {
        JsonValue::Null => serde_json::Value::Null,
        JsonValue::Bool(b) => serde_json::Value::Bool(*b),
        JsonValue::Number(n) => serde_json::Value::Number(n.clone()),
        JsonValue::Str(s) => serde_json::Value::String(s.clone()),
        JsonValue::Array(a) => serde_json::Value::Array(a.iter().map(to_serde).collect()),
        JsonValue::Object(m) => serde_json::Value::Object(m.iter().map(|(k, x)| (k.clone(), to_serde(x))).collect()),
    }
}

/// `serde_json::from_str::<serde_json::Value>`: the parsed document, named by
/// `json_parse`.
#[verifier::external_body]
pub(crate) fn parse_json(text: &str) -> (r: Option<JsonValue>)
    ensures
        r == json_parse(text@),
{
    serde_json::from_str::<serde_json::Value>(text).ok().map(from_serde)
}

/// `serde_json::Value::to_string`: the compact serialisation, named by
/// `json_text`.
#[verifier::external_body]
pub(crate) fn json_to_string(v: &JsonValue) -> (r: String)
    ensures
        r@ == json_text(*v),
{
    to_serde(v).to_string()
}

// ---------------------------------------------------------------------------
// Code fences
// ---------------------------------------------------------------------------

/// A Markdown code fence.
pub open spec fn fence() -> Seq<char> {
    seq!['`', '`', '`']
}

/// `s[pos..]` with every fenced block replaced by its content: the opening
/// fence and the rest of its line are dropped, and so is the closing fence;
/// an unclosed fence keeps everything after its opening line.
pub open spec fn strip_from(s: Seq<char>, pos: int) -> Seq<char>
    decreases s.len() - pos,
{
    if pos < 0 || pos > s.len() {
        Seq::empty()
    } else {
        match find_from(s, fence(), pos) {
            None => s.subrange(pos, s.len() as int),
            Some(f) => {
                let cs = match find_from(s, seq!['\n'], f + 3) {
                    Some(p) => p + 1,
                    None => f + 3,
                };
                match find_from(s, fence(), cs) {
                    Some(c) => {
                        proof {
                            lemma_find_from(s, fence(), pos);
                            lemma_find_from(s, seq!['\n'], f + 3);
                            lemma_find_from(s, fence(), cs);
                        }
                        s.subrange(pos, f) + s.subrange(cs, c) + strip_from(s, c + 3)
                    },
                    None => s.subrange(pos, f) + s.subrange(cs, s.len() as int),
                }
            },
        }
    }
}

/// The response with its code fences removed, trimmed.
pub open spec fn strip_fences_spec(s: Seq<char>) -> Seq<char> {
    trim_spec(strip_from(s, 0))
}

/// Removes every Markdown code fence from `s` (keeping what they enclose and
/// what surrounds them) and trims the result.
pub fn strip_fences(s: &str) -> (r: String)
    ensures
        r@ == strip_fences_spec(s@),
{
    let cs = chars_of(s);
    let fc: [char; 3] = ['`', '`', '`'];
    let nl: [char; 1] = ['\n'];
    proof {
        assert(fc@ == fence());
        assert(nl@ == seq!['\n']);
    }
    let mut out: Vec<char> = Vec::new();
    let mut pos: usize = 0;
    let mut done = false;
    while !done
        invariant
            cs@ == s@,
            fc@ == fence(),
            nl@ == seq!['\n'],
            pos <= cs.len(),
            done ==> out@ == strip_from(cs@, 0),
            !done ==> strip_from(cs@, 0) == out@ + strip_from(cs@, pos as int),
        decreases cs.len() - pos + (if done { 0int } else { 1int }),
    {
        proof {
            lemma_find_from(cs@, fence(), pos as int);
        }
        match find_chars(&cs, &fc, pos) {
            None => {
                let rest = slice_chars(&cs, pos, cs.len());
                let mut rest = rest;
                out.append(&mut rest);
                done = true;
            },
            Some(f) => {
                proof {
                    lemma_find_from(cs@, seq!['\n'], f + 3);
                }
                let content_start = match find_chars(&cs, &nl, f + 3) {
                    Some(p) => p + 1,
                    None => f + 3,
                };
                proof {
                    lemma_find_from(cs@, fence(), content_start as int);
                }
                let before = slice_chars(&cs, pos, f);
                match find_chars(&cs, &fc, content_start) {
                    Some(c) => {
                        let inner = slice_chars(&cs, content_start, c);
                        proof {
                            assert(strip_from(cs@, pos as int) == before@ + inner@ + strip_from(
                                cs@,
                                c + 3,
                            ));
                            assert(out@ + (before@ + inner@ + strip_from(cs@, c + 3)) == (out@
                                + before@ + inner@) + strip_from(cs@, c + 3));
                        }
                        let mut before = before;
                        let mut inner = inner;
                        out.append(&mut before);
                        out.append(&mut inner);
                        pos = c + 3;
                    },
                    None => {
                        let inner = slice_chars(&cs, content_start, cs.len());
                        proof {
                            assert(out@ + (before@ + inner@) == out@ + before@ + inner@);
                        }
                        let mut before = before;
                        let mut inner = inner;
                        out.append(&mut before);
                        out.append(&mut inner);
                        done = true;
                    },
                }
            },
        }
    }
    let t = trim_chars(&out);
    string_of(&t)
}

// ---------------------------------------------------------------------------
// Scanning for an embedded array
// ---------------------------------------------------------------------------

/// Where the bracket opened before position `i` closes: the walk goes on from
/// `i` with the given nesting depth, inside a string literal or not, and with
/// the next character escaped or not. Brackets inside string literals do not
/// count; a backslash inside a string escapes the next character.
pub open spec fn close_of(s: Seq<char>, i: int, depth: int, in_str: bool, esc: bool) -> Option<int>
    decreases s.len() - i,
{
    if i < 0 || i >= s.len() {
        None
    } else if esc {
        close_of(s, i + 1, depth, in_str, false)
    } else {
        let c = s[i];
        if c == '\\' && in_str {
            close_of(s, i + 1, depth, in_str, true)
        } else if c == '"' {
            close_of(s, i + 1, depth, !in_str, false)
        } else if c == '[' && !in_str {
            close_of(s, i + 1, depth + 1, in_str, false)
        } else if c == ']' && !in_str {
            if depth - 1 == 0 {
                Some(i)
            } else {
                close_of(s, i + 1, depth - 1, in_str, false)
            }
        } else {
            close_of(s, i + 1, depth, in_str, false)
        }
    }
}

/// The balanced array that starts at the first `[` of `s`, if it parses as
/// JSON.
pub open spec fn scan_spec(s: Seq<char>) -> Option<Seq<char>> {
    match find_from(s, seq!['['], 0) {
        None => None,
        Some(st) => match close_of(s, st, 0, false, false) {
            None => None,
            Some(e) => {
                let cand = s.subrange(st, e + 1);
                if json_parse(cand) is Some {
                    Some(cand)
                } else {
                    None
                }
            },
        },
    }
}

proof fn lemma_close_of_bounds(s: Seq<char>, i: int, depth: int, in_str: bool, esc: bool)
    ensures
        close_of(s, i, depth, in_str, esc) matches Some(e) ==> i <= e < s.len(),
    decreases s.len() - i,
{
    if 0 <= i < s.len() {
        lemma_close_of_bounds(s, i + 1, depth, in_str, false);
        lemma_close_of_bounds(s, i + 1, depth, in_str, true);
        lemma_close_of_bounds(s, i + 1, depth, !in_str, false);
        lemma_close_of_bounds(s, i + 1, depth + 1, in_str, false);
        lemma_close_of_bounds(s, i + 1, depth - 1, in_str, false);
    }
}

/// The first balanced JSON array embedded in `s` (`[` ... matching `]`), if
/// that span parses as JSON.
pub fn scan_for_array(s: &str) -> (r: Option<String>)
    ensures
        match r {
            Some(t) => scan_spec(s@) == Some(t@),
            None => scan_spec(s@) is None,
        },
{
    let cs = chars_of(s);
    let ob: [char; 1] = ['['];
    proof {
        assert(ob@ == seq!['[']);
    }
    let st = match find_chars(&cs, &ob, 0) {
        None => return None,
        Some(st) => st,
    };
    proof {
        lemma_find_from(cs@, seq!['['], 0);
    }
    let mut depth: i128 = 0;
    let mut in_str = false;
    let mut esc = false;
    let mut i: usize = st;
    while i < cs.len()
        invariant
            cs@ == s@,
            find_from(cs@, seq!['['], 0) == Some(st as int),
            st <= i <= cs.len(),
            -(i - st) <= depth <= i - st,
            close_of(cs@, st as int, 0, false, false) == close_of(cs@, i as int, depth as int, in_str, esc),
        decreases cs.len() - i,
    {
        if esc {
            esc = false;
        } else {
            let c = cs[i];
            if c == '\\' && in_str {
                esc = true;
            } else if c == '"' {
                in_str = !in_str;
            } else if c == '[' && !in_str {
                depth = depth + 1;
            } else if c == ']' && !in_str {
                depth = depth - 1;
                if depth == 0 {
                    let cand = slice_chars(&cs, st, i + 1);
                    let text = string_of(&cand);
                    proof {
                        assert(close_of(cs@, i as int, depth + 1, in_str, esc) == Some(i as int));
                        assert(close_of(cs@, st as int, 0, false, false) == Some(i as int));
                        assert(find_from(s@, seq!['['], 0) == Some(st as int));
                        assert(text@ == s@.subrange(st as int, i + 1));
                        assert(scan_spec(s@) == (if json_parse(text@) is Some {
                            Some(text@)
                        } else {
                            None
                        }));
                    }
                    return match parse_json(text.as_str()) {
                        Some(_) => Some(text),
                        None => None,
                    };
                }
            }
        }
        i = i + 1;
    }
    None
}

// ---------------------------------------------------------------------------
// Reading a parsed document
// ---------------------------------------------------------------------------

/// The value of the first member of `fields` named `key`.
pub open spec fn field_get(fields: Seq<(String, JsonValue)>, key: Seq<char>) -> Option<JsonValue>
    decreases fields.len(),
{
    if fields.len() == 0 {
        None
    } else if fields[0].0@ == key {
        Some(fields[0].1)
    } else {
        field_get(fields.drop_first(), key)
    }
}

/// `Value::get(key)`: a member of an object, nothing for other values.
pub open spec fn value_get(v: JsonValue, key: Seq<char>) -> Option<JsonValue> {
    match v {
        JsonValue::Object(fields) => field_get(fields@, key),
        _ => None,
    }
}

/// `Value::as_str`.
pub open spec fn value_str(v: Option<JsonValue>) -> Option<Seq<char>> {
    match v {
        Some(JsonValue::Str(s)) => Some(s@),
        _ => None,
    }
}

/// What a wrapper member named `key` yields: an array's text, or a string.
pub open spec fn wrapped(fields: Seq<(String, JsonValue)>, key: Seq<char>) -> Option<Seq<char>> {
    match field_get(fields, key) {
        Some(JsonValue::Array(a)) => Some(json_text(JsonValue::Array(a))),
        Some(JsonValue::Str(s)) => Some(s@),
        _ => None,
    }
}

/// The first wrapper member among `facts`, `leads`, `results`, `items`,
/// `data` that holds an array or a string.
pub open spec fn wrapper_member(fields: Seq<(String, JsonValue)>) -> Option<Seq<char>> {
    if wrapped(fields, "facts"@) is Some {
        wrapped(fields, "facts"@)
    } else if wrapped(fields, "leads"@) is Some {
        wrapped(fields, "leads"@)
    } else if wrapped(fields, "results"@) is Some {
        wrapped(fields, "results"@)
    } else if wrapped(fields, "items"@) is Some {
        wrapped(fields, "items"@)
    } else {
        wrapped(fields, "data"@)
    }
}

/// The text of the first choice of a chat-completion reply:
/// `choices[0].message.content`, else `choices[0].content`.
pub open spec fn choice_content(fields: Seq<(String, JsonValue)>) -> Option<Seq<char>> {
    match field_get(fields, "choices"@) {
        Some(JsonValue::Array(items)) => if items@.len() > 0 {
            let first = items@[0];
            let msg = match value_get(first, "message"@) {
                Some(m) => value_str(value_get(m, "content"@)),
                None => None,
            };
            if msg is Some {
                msg
            } else {
                value_str(value_get(first, "content"@))
            }
        } else {
            None
        },
        _ => None,
    }
}

/// A string that looks like JSON, an array's text, or the first such thing
/// found in an object: wrapper members first, then a chat-completion choice,
/// then every member in turn.
pub open spec fn find_json_string_spec(v: JsonValue) -> Option<Seq<char>>
    decreases v, 1int, 0int,
{
    match v {
        JsonValue::Str(s) => {
            let t = trim_spec(s@);
            if starts_with(t, seq!['[']) || starts_with(t, seq!['{']) || starts_with(t, fence()) {
                Some(t)
            } else {
                None
            }
        },
        JsonValue::Object(fields) => {
            if wrapper_member(fields@) is Some {
                wrapper_member(fields@)
            } else if choice_content(fields@) is Some {
                choice_content(fields@)
            } else {
                find_in_members(fields, 0)
            }
        },
        JsonValue::Array(a) => Some(json_text(JsonValue::Array(a))),
        _ => None,
    }
}

/// The first member of `fields`, from position `i` on, in which
/// `find_json_string_spec` finds something.
pub open spec fn find_in_members(fields: Vec<(String, JsonValue)>, i: int) -> Option<Seq<char>>
    decreases fields, 0int, fields@.len() - i,
{
    if i < 0 || i >= fields@.len() {
        None
    } else {
        let here = find_json_string_spec(fields@[i].1);
        if here is Some {
            here
        } else {
            find_in_members(fields, i + 1)
        }
    }
}


/// An optional string, by its characters.
pub open spec fn opt_chars(r: Option<String>) -> Option<Seq<char>> {
    match r {
        Some(t) => Some(t@),
        None => None,
    }
}

/// The value of the first member of `fields` named `key`.
pub fn field_lookup<'a>(fields: &'a Vec<(String, JsonValue)>, key: &str) -> (r: Option<&'a JsonValue>)
    ensures
        match r {
            Some(x) => field_get(fields@, key@) == Some(*x),
            None => field_get(fields@, key@) is None,
        },
{
    let mut i: usize = 0;
    proof {
        assert(fields@.skip(0) == fields@);
    }
    while i < fields.len()
        invariant
            i <= fields.len(),
            field_get(fields@, key@) == field_get(fields@.skip(i as int), key@),
        decreases fields.len() - i,
    {
        proof {
            assert(fields@.skip(i as int)[0] == fields@[i as int]);
            assert(fields@.skip(i as int).drop_first() == fields@.skip(i + 1));
        }
        if str_eq(fields[i].0.as_str(), key) {
            return Some(&fields[i].1);
        }
        i = i + 1;
    }
    None
}

/// `Value::get(key)`.
pub fn value_lookup<'a>(v: &'a JsonValue, key: &str) -> (r: Option<&'a JsonValue>)
    ensures
        match r {
            Some(x) => value_get(*v, key@) == Some(*x),
            None => value_get(*v, key@) is None,
        },
{
    match v {
        JsonValue::Object(fields) => field_lookup(fields, key),
        _ => None,
    }
}

/// `Value::as_str`, copied.
fn str_of(v: Option<&JsonValue>) -> (r: Option<String>)
    ensures
        opt_chars(r) == value_str(match v {
            Some(x) => Some(*x),
            None => None,
        }),
{
    match v {
        Some(JsonValue::Str(s)) => Some(string_of(&chars_of(s.as_str()))),
        _ => None,
    }
}

fn wrapped_exec(fields: &Vec<(String, JsonValue)>, key: &str) -> (r: Option<String>)
    ensures
        opt_chars(r) == wrapped(fields@, key@),
{
    match field_lookup(fields, key) {
        Some(x) => match x {
            JsonValue::Array(_) => Some(json_to_string(x)),
            JsonValue::Str(s) => Some(string_of(&chars_of(s.as_str()))),
            _ => None,
        },
        None => None,
    }
}

fn wrapper_member_exec(fields: &Vec<(String, JsonValue)>) -> (r: Option<String>)
    ensures
        opt_chars(r) == wrapper_member(fields@),
{
    let a = wrapped_exec(fields, "facts");
    if a.is_some() {
        return a;
    }
    let b = wrapped_exec(fields, "leads");
    if b.is_some() {
        return b;
    }
    let c = wrapped_exec(fields, "results");
    if c.is_some() {
        return c;
    }
    let d = wrapped_exec(fields, "items");
    if d.is_some() {
        return d;
    }
    wrapped_exec(fields, "data")
}

fn choice_content_exec(fields: &Vec<(String, JsonValue)>) -> (r: Option<String>)
    ensures
        opt_chars(r) == choice_content(fields@),
{
    match field_lookup(fields, "choices") {
        Some(JsonValue::Array(items)) => {
            if items.len() == 0 {
                return None;
            }
            let first = &items[0];
            let msg = match value_lookup(first, "message") {
                Some(m) => str_of(value_lookup(m, "content")),
                None => None,
            };
            if msg.is_some() {
                msg
            } else {
                str_of(value_lookup(first, "content"))
            }
        },
        _ => None,
    }
}

/// Looks through a parsed reply for the text that should hold the array: a
/// string that starts like JSON or a fence, an array's text, a wrapper member
/// (`facts`, `leads`, `results`, `items`, `data`), a chat-completion choice,
/// or the first member of an object in which any of these is found.
pub fn find_json_string(v: &JsonValue) -> (r: Option<String>)
    ensures
        opt_chars(r) == find_json_string_spec(*v),
    decreases *v, 1int, 0int,
{
    match v {
        JsonValue::Str(s) => {
            let t = trim(s.as_str());
            let tc = chars_of(t.as_str());
            let ob: [char; 1] = ['['];
            let oc: [char; 1] = ['{'];
            let fc: [char; 3] = ['`', '`', '`'];
            proof {
                assert(ob@ == seq!['[']);
                assert(oc@ == seq!['{']);
                assert(fc@ == fence());
            }
            if starts_with_chars(&tc, &ob) || starts_with_chars(&tc, &oc) || starts_with_chars(&tc, &fc) {
                Some(t)
            } else {
                None
            }
        },
        JsonValue::Object(fields) => {
            let w = wrapper_member_exec(fields);
            if w.is_some() {
                return w;
            }
            let c = choice_content_exec(fields);
            if c.is_some() {
                return c;
            }
            find_in_members_exec(fields, 0)
        },
        JsonValue::Array(_) => Some(json_to_string(v)),
        _ => None,
    }
}

fn find_in_members_exec(fields: &Vec<(String, JsonValue)>, i: usize) -> (r: Option<String>)
    ensures
        opt_chars(r) == find_in_members(*fields, i as int),
    decreases *fields, 0int, fields@.len() - i,
{
    if i >= fields.len() {
        return None;
    }
    let here = find_json_string(&fields[i].1);
    if here.is_some() {
        here
    } else {
        find_in_members_exec(fields, i + 1)
    }
}

// ---------------------------------------------------------------------------
// Extraction
// ---------------------------------------------------------------------------

/// `v` is an object with a member named `key`.
pub open spec fn has_member(v: JsonValue, key: Seq<char>) -> bool {
    value_get(v, key) is Some
}

/// What the extractor returns for `resp`, following at most `fuel` levels of
/// wrapping:
/// 1. the response without code fences, if it then starts with `[`;
/// 2. otherwise, if that text parses: an array's compact text; a single lead
///    object (with `title` or `observed_pattern`) wrapped in brackets; or the
///    extraction of what `find_json_string_spec` finds in it;
/// 3. otherwise the first balanced array embedded in the raw response, if it
///    parses;
/// 4. otherwise the response without code fences.
pub open spec fn extract_spec(resp: Seq<char>, fuel: nat) -> Seq<char>
    decreases fuel,
{
    let stripped = strip_fences_spec(resp);
    let fallback = match scan_spec(resp) {
        Some(f) => f,
        None => stripped,
    };
    if starts_with(trim_start_spec(stripped), seq!['[']) {
        stripped
    } else {
        match json_parse(stripped) {
            None => fallback,
            Some(val) => if val is Array {
                json_text(val)
            } else if has_member(val, "title"@) || has_member(val, "observed_pattern"@) {
                seq!['['] + trim_spec(stripped) + seq![']']
            } else {
                match find_json_string_spec(val) {
                    Some(found) => if fuel == 0 {
                        found
                    } else {
                        extract_spec(found, (fuel - 1) as nat)
                    },
                    None => fallback,
                }
            },
        }
    }
}

/// What the extractor returns for `resp` once the fence-stripped reply has
/// been parsed (to `parsed`, or not at all): steps 2 to 4 of `extract_spec`.
pub open spec fn extract_after_parse(resp: Seq<char>, parsed: Option<JsonValue>, fuel: nat) -> Seq<char> {
    let stripped = strip_fences_spec(resp);
    let fallback = match scan_spec(resp) {
        Some(f) => f,
        None => stripped,
    };
    match parsed {
        None => fallback,
        Some(val) => if val is Array {
            json_text(val)
        } else if has_member(val, "title"@) || has_member(val, "observed_pattern"@) {
            seq!['['] + trim_spec(stripped) + seq![']']
        } else {
            match find_json_string_spec(val) {
                Some(found) => if fuel == 0 {
                    found
                } else {
                    extract_spec(found, (fuel - 1) as nat)
                },
                None => fallback,
            }
        },
    }
}

fn extract_within(response: &str, fuel: usize) -> (r: String)
    ensures
        r@ == extract_spec(response@, fuel as nat),
    decreases fuel, 1int,
{
    let stripped = strip_fences(response);
    let sc = chars_of(stripped.as_str());
    let ts = trim_start_chars(&sc);
    let ob: [char; 1] = ['['];
    proof {
        assert(ob@ == seq!['[']);
    }
    if starts_with_chars(&ts, &ob) {
        return stripped;
    }
    let parsed = parse_json(stripped.as_str());
    extract_from_parsed(response, parsed, fuel)
}

/// The extraction of a reply whose fence-stripped text parsed to `parsed`
/// (`None`: it did not parse): an array's compact text; a single lead object
/// wrapped in brackets; the extraction, `fuel` levels deep at most, of the
/// string `find_json_string_spec` finds in it; else the first balanced array
/// embedded in the reply, or the fence-stripped reply.
pub fn extract_from_parsed(response: &str, parsed: Option<JsonValue>, fuel: usize) -> (r: String)
    ensures
        r@ == extract_after_parse(response@, parsed, fuel as nat),
    decreases fuel, 0int,
{
    let stripped = strip_fences(response);
    match parsed {
        Some(val) => {
            if let JsonValue::Array(_) = val {
                return json_to_string(&val);
            }
            if value_lookup(&val, "title").is_some() || value_lookup(&val, "observed_pattern").is_some() {
                let mut out = String::new();
                push_char(&mut out, '[');
                let t = trim(stripped.as_str());
                push_str(&mut out, t.as_str());
                push_char(&mut out, ']');
                proof {
                    assert(out@ == seq!['['] + trim_spec(stripped@) + seq![']']);
                }
                return out;
            }
            match find_json_string(&val) {
                Some(found) => {
                    if fuel == 0 {
                        return found;
                    }
                    return extract_within(found.as_str(), fuel - 1);
                },
                None => {},
            }
        },
        None => {},
    }
    match scan_for_array(response) {
        Some(f) => f,
        None => stripped,
    }
}

/// Tolerant extraction of a JSON array from a model's reply (see
/// `extract_spec`); wrappers are followed to a depth of at most the number of
/// characters of the reply.
pub fn extract_json_array(response: &str) -> (r: String)
    ensures
        r@ == extract_spec(response@, response@.len()),
{
    let n = chars_of(response).len();
    extract_within(response, n)
}

// ---------------------------------------------------------------------------
// Key/value leads
// ---------------------------------------------------------------------------

/// A lead read from the key/value reply format. Each text field is trimmed
/// and absent when empty; `confidence` is the text after `CONFIDENCE:`, which
/// the caller reads as a number.
#[derive(Debug)]
pub struct KvLead {
    pub title: Option<String>,
    pub observed_pattern: Option<String>,
    pub rationale: Option<String>,
    pub affected_files: Option<Vec<String>>,
    pub confidence: Option<String>,
}

/// Markdown noise allowed before a key: `*`, `#` and spaces.
pub open spec fn md_noise(c: char) -> bool {
    c == '*' || c == '#' || c == ' '
}

/// `s` without its leading Markdown noise.
pub open spec fn skip_md(s: Seq<char>) -> Seq<char>
    decreases s.len(),
{
    if s.len() > 0 && md_noise(s[0]) {
        skip_md(s.drop_first())
    } else {
        s
    }
}

/// `s` without its leading dashes.
pub open spec fn skip_dash(s: Seq<char>) -> Seq<char>
    decreases s.len(),
{
    if s.len() > 0 && s[0] == '-' {
        skip_dash(s.drop_first())
    } else {
        s
    }
}

/// The key that starts field `k`: `TITLE:`, `PATTERN:`, `RATIONALE:`,
/// `FILES:`, `CONFIDENCE:`.
pub open spec fn key_prefix(k: int) -> Seq<char> {
    if k == 0 {
        "TITLE:"@
    } else if k == 1 {
        "PATTERN:"@
    } else if k == 2 {
        "RATIONALE:"@
    } else if k == 3 {
        "FILES:"@
    } else {
        "CONFIDENCE:"@
    }
}

/// The first field whose key starts `t`.
pub open spec fn first_key(t: Seq<char>) -> Option<int> {
    if starts_with(t, key_prefix(0)) {
        Some(0)
    } else if starts_with(t, key_prefix(1)) {
        Some(1)
    } else if starts_with(t, key_prefix(2)) {
        Some(2)
    } else if starts_with(t, key_prefix(3)) {
        Some(3)
    } else if starts_with(t, key_prefix(4)) {
        Some(4)
    } else {
        None
    }
}

/// The reader's state after a line: the field being filled and the text of
/// each of the five fields so far. A key line starts its field afresh (a
/// repeated key keeps the last value); another non-blank line is appended to
/// the current field on a line of its own.
pub open spec fn kv_step(
    st: (Option<int>, Seq<Option<Seq<char>>>),
    line: Seq<char>,
) -> (Option<int>, Seq<Option<Seq<char>>>) {
    let t = skip_md(line);
    match first_key(t) {
        Some(k) => (Some(k), st.1.update(k, Some(trim_spec(t.skip(key_prefix(k).len() as int))))),
        None => match st.0 {
            Some(k) => {
                let s = trim_spec(line);
                if s.len() == 0 {
                    st
                } else {
                    let prev = match st.1[k] {
                        Some(v) => v,
                        None => Seq::empty(),
                    };
                    let next = if prev.len() > 0 {
                        prev.push('\n') + s
                    } else {
                        s
                    };
                    (st.0, st.1.update(k, Some(next)))
                }
            },
            None => st,
        },
    }
}

/// The state after reading `ls`, line by line.
pub open spec fn kv_fold(ls: Seq<Seq<char>>) -> (Option<int>, Seq<Option<Seq<char>>>)
    decreases ls.len(),
{
    if ls.len() == 0 {
        (None, seq![None, None, None, None, None])
    } else {
        kv_step(kv_fold(ls.drop_last()), ls.last())
    }
}

/// A field's final text: trimmed, absent when empty.
pub open spec fn kv_field(b: Option<Seq<char>>) -> Option<Seq<char>> {
    match b {
        Some(t) => if trim_spec(t).len() > 0 {
            Some(trim_spec(t))
        } else {
            None
        },
        None => None,
    }
}

/// Field `k` of the lead read from `resp`.
pub open spec fn kv_get(resp: Seq<char>, k: int) -> Option<Seq<char>> {
    kv_field(kv_fold(crate::scan::lines(resp)).1[k])
}

/// Separators of the `FILES:` list.
pub open spec fn file_sep(c: char) -> bool {
    c == ',' || c == '\n'
}

/// The pieces between separators, empty ones included.
pub open spec fn split_files(s: Seq<char>) -> Seq<Seq<char>>
    decreases s.len(),
{
    if s.len() == 0 {
        seq![Seq::empty()]
    } else {
        let rest = split_files(s.drop_last());
        if file_sep(s.last()) {
            rest.push(Seq::empty())
        } else {
            rest.update(rest.len() - 1, rest.last().push(s.last()))
        }
    }
}

/// A list entry: trimmed, bullet dashes removed, trimmed again.
pub open spec fn clean_file(p: Seq<char>) -> Seq<char> {
    trim_spec(skip_dash(trim_spec(p)))
}

/// The non-empty cleaned entries of `ps`, in order.
pub open spec fn kept_files(ps: Seq<Seq<char>>) -> Seq<Seq<char>>
    decreases ps.len(),
{
    if ps.len() == 0 {
        Seq::empty()
    } else {
        let rest = kept_files(ps.drop_last());
        let c = clean_file(ps.last());
        if c.len() > 0 {
            rest.push(c)
        } else {
            rest
        }
    }
}

/// The file list of the lead read from `resp`.
pub open spec fn kv_files(resp: Seq<char>) -> Seq<Seq<char>> {
    match kv_get(resp, 3) {
        Some(t) => kept_files(split_files(t)),
        None => Seq::empty(),
    }
}

proof fn lemma_split_files_nonempty(s: Seq<char>)
    ensures
        split_files(s).len() >= 1,
    decreases s.len(),
{
    if s.len() > 0 {
        lemma_split_files_nonempty(s.drop_last());
    }
}

fn skip_md_chars(s: &[char]) -> (r: Vec<char>)
    ensures
        r@ == skip_md(s@),
{
    let mut lo: usize = 0;
    proof {
        assert(s@.skip(0) == s@);
    }
    while lo < s.len() && (s[lo] == '*' || s[lo] == '#' || s[lo] == ' ')
        invariant
            lo <= s.len(),
            skip_md(s@) == skip_md(s@.skip(lo as int)),
        decreases s.len() - lo,
    {
        proof {
            assert(s@.skip(lo as int).drop_first() == s@.skip(lo + 1));
        }
        lo = lo + 1;
    }
    proof {
        assert(s@.subrange(lo as int, s.len() as int) == s@.skip(lo as int));
    }
    slice_chars(s, lo, s.len())
}

fn skip_dash_chars(s: &[char]) -> (r: Vec<char>)
    ensures
        r@ == skip_dash(s@),
{
    let mut lo: usize = 0;
    proof {
        assert(s@.skip(0) == s@);
    }
    while lo < s.len() && s[lo] == '-'
        invariant
            lo <= s.len(),
            skip_dash(s@) == skip_dash(s@.skip(lo as int)),
        decreases s.len() - lo,
    {
        proof {
            assert(s@.skip(lo as int).drop_first() == s@.skip(lo + 1));
        }
        lo = lo + 1;
    }
    proof {
        assert(s@.subrange(lo as int, s.len() as int) == s@.skip(lo as int));
    }
    slice_chars(s, lo, s.len())
}

fn first_key_exec(t: &[char]) -> (r: Option<usize>)
    ensures
        match r {
            Some(k) => first_key(t@) == Some(k as int) && k < 5,
            None => first_key(t@) is None,
        },
{
    let k0 = chars_of("TITLE:");
    if starts_with_chars(t, &k0) {
        return Some(0);
    }
    let k1 = chars_of("PATTERN:");
    if starts_with_chars(t, &k1) {
        return Some(1);
    }
    let k2 = chars_of("RATIONALE:");
    if starts_with_chars(t, &k2) {
        return Some(2);
    }
    let k3 = chars_of("FILES:");
    if starts_with_chars(t, &k3) {
        return Some(3);
    }
    let k4 = chars_of("CONFIDENCE:");
    if starts_with_chars(t, &k4) {
        return Some(4);
    }
    None
}

fn key_len(k: usize) -> (n: usize)
    requires
        k < 5,
    ensures
        n == key_prefix(k as int).len(),
{
    if k == 0 {
        chars_of("TITLE:").len()
    } else if k == 1 {
        chars_of("PATTERN:").len()
    } else if k == 2 {
        chars_of("RATIONALE:").len()
    } else if k == 3 {
        chars_of("FILES:").len()
    } else {
        chars_of("CONFIDENCE:").len()
    }
}

/// Optional characters, by their sequence.
pub open spec fn opt_seq(b: Option<Vec<char>>) -> Option<Seq<char>> {
    match b {
        Some(v) => Some(v@),
        None => None,
    }
}

fn field_text(b: &Option<Vec<char>>) -> (r: Option<String>)
    ensures
        opt_chars(r) == kv_field(opt_seq(*b)),
{
    match b {
        Some(v) => {
            let t = trim_chars(v);
            if t.len() > 0 {
                Some(string_of(&t))
            } else {
                None
            }
        },
        None => None,
    }
}

fn files_of(s: &[char]) -> (out: Vec<String>)
    ensures
        out@.len() == kept_files(split_files(s@)).len(),
        forall|k: int|
            0 <= k < out@.len() ==> #[trigger] out@[k]@ == kept_files(split_files(s@))[k],
{
    let mut out: Vec<String> = Vec::new();
    let mut cur: Vec<char> = Vec::new();
    let ghost mut done: Seq<Seq<char>> = Seq::empty();
    let mut i: usize = 0;
    proof {
        assert(s@.take(0) == Seq::<char>::empty());
    }
    while i < s.len()
        invariant
            i <= s.len(),
            split_files(s@.take(i as int)) == done.push(cur@),
            out@.len() == kept_files(done).len(),
            forall|k: int| 0 <= k < out@.len() ==> #[trigger] out@[k]@ == kept_files(done)[k],
        decreases s.len() - i,
    {
        let c = s[i];
        proof {
            assert(s@.take(i + 1).drop_last() == s@.take(i as int));
            assert(s@.take(i + 1).last() == c);
        }
        if c == ',' || c == '\n' {
            let a = trim_chars(&cur);
            let b = skip_dash_chars(&a);
            let t = trim_chars(&b);
            proof {
                assert(done.push(cur@).drop_last() == done);
                assert(done.push(cur@).last() == cur@);
            }
            if t.len() > 0 {
                out.push(string_of(&t));
            }
            proof {
                done = done.push(cur@);
            }
            cur = Vec::new();
        } else {
            proof {
                assert(cur@.push(c).drop_last() == cur@);
                assert(done.push(cur@).update(done.len() as int, cur@.push(c)) == done.push(cur@.push(c)));
            }
            cur.push(c);
        }
        i = i + 1;
    }
    proof {
        assert(s@.take(s.len() as int) == s@);
        assert(done.push(cur@).drop_last() == done);
        assert(done.push(cur@).last() == cur@);
    }
    let a = trim_chars(&cur);
    let b = skip_dash_chars(&a);
    let t = trim_chars(&b);
    if t.len() > 0 {
        out.push(string_of(&t));
    }
    out
}

/// Reads a lead from the key/value reply format: `TITLE:`, `PATTERN:`,
/// `RATIONALE:`, `FILES:` and `CONFIDENCE:` lines (after optional `*`, `#`
/// or spaces), each continued by the non-key lines that follow it. `FILES:`
/// is split at commas and newlines, bullet dashes removed.
pub fn parse_kv_lead(response: &str) -> (r: KvLead)
    ensures
        opt_chars(r.title) == kv_get(response@, 0),
        opt_chars(r.observed_pattern) == kv_get(response@, 1),
        opt_chars(r.rationale) == kv_get(response@, 2),
        opt_chars(r.confidence) == kv_get(response@, 4),
        match r.affected_files {
            Some(fs) => kv_files(response@).len() > 0 && fs@.len() == kv_files(response@).len()
                && forall|k: int| 0 <= k < fs@.len() ==> #[trigger] fs@[k]@ == kv_files(response@)[k],
            None => kv_files(response@).len() == 0,
        },
{
    let cs = chars_of(response);
    let ls = crate::scan::split_lines(&cs);
    let mut buckets: Vec<Option<Vec<char>>> = vec![None, None, None, None, None];
    let mut current: Option<usize> = None;
    let ghost mut st = kv_fold(Seq::empty());
    let mut i: usize = 0;
    while i < ls.len()
        invariant
            cs@ == response@,
            ls@.len() == crate::scan::lines(cs@).len(),
            forall|k: int| 0 <= k < ls@.len() ==> #[trigger] ls@[k]@ == crate::scan::lines(cs@)[k],
            i <= ls.len(),
            st == kv_fold(crate::scan::lines(cs@).take(i as int)),
            buckets@.len() == 5,
            st.1.len() == 5,
            forall|k: int| 0 <= k < 5 ==> #[trigger] opt_seq(buckets@[k]) == st.1[k],
            match current {
                Some(k) => st.0 == Some(k as int) && k < 5,
                None => st.0 is None,
            },
        decreases ls.len() - i,
    {
        let line = &ls[i];
        proof {
            let all = crate::scan::lines(cs@);
            assert(all.take(i + 1).drop_last() == all.take(i as int));
            assert(all.take(i + 1).last() == line@);
        }
        let t = skip_md_chars(line);
        match first_key_exec(&t) {
            Some(k) => {
                let n = key_len(k);
                let rest = if n <= t.len() {
                    slice_chars(&t, n, t.len())
                } else {
                    Vec::new()
                };
                proof {
                    assert(rest@ == t@.skip(n as int));
                }
                let v = trim_chars(&rest);
                buckets.set(k, Some(v));
                current = Some(k);
                proof {
                    st = kv_step(st, line@);
                    assert forall|j: int| 0 <= j < 5 implies #[trigger] opt_seq(buckets@[j]) == st.1[j] by {}
                }
            },
            None => {
                match current {
                    Some(k) => {
                        let s = trim_chars(line);
                        if s.len() > 0 {
                            let mut prev: Vec<char> = match &buckets[k] {
                                Some(v) => slice_chars(v, 0, v.len()),
                                None => Vec::new(),
                            };
                            if prev.len() > 0 {
                                prev.push('\n');
                            }
                            let mut s2 = s;
                            prev.append(&mut s2);
                            proof {
                                assert(st.1[k as int] == opt_seq(buckets@[k as int]));
                            }
                            buckets.set(k, Some(prev));
                        }
                        proof {
                            st = kv_step(st, line@);
                            assert forall|j: int| 0 <= j < 5 implies #[trigger] opt_seq(buckets@[j]) == st.1[j] by {}
                        }
                    },
                    None => {
                        proof {
                            st = kv_step(st, line@);
                        }
                    },
                }
            },
        }
        i = i + 1;
    }
    proof {
        let all = crate::scan::lines(cs@);
        assert(all.take(ls.len() as int) == all);
    }
    let title = field_text(&buckets[0]);
    let observed_pattern = field_text(&buckets[1]);
    let rationale = field_text(&buckets[2]);
    let confidence = field_text(&buckets[4]);
    let files_text = field_text(&buckets[3]);
    proof {
        assert(opt_seq(buckets@[0]) == st.1[0]);
        assert(opt_seq(buckets@[1]) == st.1[1]);
        assert(opt_seq(buckets@[2]) == st.1[2]);
        assert(opt_seq(buckets@[3]) == st.1[3]);
        assert(opt_seq(buckets@[4]) == st.1[4]);
    }
    let affected_files = match files_text {
        Some(ft) => {
            let fc = chars_of(ft.as_str());
            let fs = files_of(&fc);
            if fs.len() > 0 {
                Some(fs)
            } else {
                None
            }
        },
        None => None,
    };
    KvLead { title, observed_pattern, rationale, affected_files, confidence }
}
} // verus!
