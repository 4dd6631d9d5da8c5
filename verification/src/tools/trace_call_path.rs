//! Call-path tracing: the direction of a trace, its defaults, and the compact
//! `file:line name` anchor of a symbol.

use vstd::prelude::*;

use crate::text::{int_text, push_int, push_str};

verus! {

/// Which way a call path is followed.
#[derive(Debug, Clone, Copy, PartialEq, Eq, Structural)]
pub enum TraceDirection {
    Inbound,
    Outbound,
    Both,
}

/// The direction used when the request does not say.
pub fn default_direction() -> (d: TraceDirection)
    ensures
        d == TraceDirection::Outbound,
{
    TraceDirection::Outbound
}

/// The depth used when the request does not say.
pub fn default_max_depth() -> (n: u32)
    ensures
        n == 4,
{
    4
}

/// A symbol on a call path.
#[derive(Debug)]
pub struct SymbolRef {
    pub name: String,
    pub kind: String,
    pub file: String,
    pub line: Option<i64>,
    /// Compact location anchor: "file:line name"
    pub anchor: String,
}

/// `file:line name`, or `file name` when the line is unknown.
pub open spec fn anchor_text(file: Seq<char>, line: Option<i64>, name: Seq<char>) -> Seq<char> {
    match line {
        Some(l) => file + ":"@ + int_text(l as int) + " "@ + name,
        None => file + " "@ + name,
    }
}

/// The compact location anchor of a symbol (`anchor_text`).
pub fn symbol_anchor(file: &str, line: Option<i64>, name: &str) -> (r: String)
    ensures
        r@ == anchor_text(file@, line, name@),
{
    let mut r = crate::text::string_of(&crate::text::chars_of(file));
    match line {
        Some(l) => {
            push_str(&mut r, ":");
            push_int(&mut r, l);
            push_str(&mut r, " ");
            push_str(&mut r, name);
        },
        None => {
            push_str(&mut r, " ");
            push_str(&mut r, name);
        },
    }
    r
}

/// A symbol reference with its anchor.
pub fn symbol_ref(name: String, kind: String, file: String, line: Option<i64>) -> (s: SymbolRef)
    ensures
        s.name == name,
        s.kind == kind,
        s.file == file,
        s.line == line,
        s.anchor@ == anchor_text(file@, line, name@),
{
    let anchor = symbol_anchor(file.as_str(), line, name.as_str());
    SymbolRef { name, kind, file, line, anchor }
}

} // verus!
