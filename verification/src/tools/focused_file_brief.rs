//! A focused brief of one file: its exports, callers and callees grouped by
//! file, the decisions that govern it, and its recent commits.

use vstd::prelude::*;

use crate::text::views;

use crate::tools::trace_call_path::{anchor_text, symbol_anchor};

verus! {

/// Request for a brief of a file, or of the file that defines a symbol.
#[derive(Debug)]
pub struct FileBriefParams {
    /// Absolute path to the repository root.
    pub repo_path: String,
    /// Repo-relative file path. Provide either this or `symbol`.
    pub file: Option<String>,
    /// Symbol name, resolved to its containing file.
    pub symbol: Option<String>,
    /// ISO-8601 timestamp to query as-of. Defaults to current time.
    pub valid_at: Option<String>,
}

/// The brief of one file.
#[derive(Debug)]
pub struct FileBriefResult {
    /// Canonical repo-relative file path this brief describes.
    pub file: String,
    /// Symbols defined by this file.
    pub exports: Vec<SymbolBrief>,
    /// Files (and their symbols) that call into this file.
    pub callers: Vec<CrossRef>,
    /// Files (and their symbols) that this file calls out to.
    pub callees: Vec<CrossRef>,
    /// Architectural decisions that govern this file.
    pub decisions: Vec<DecisionBrief>,
    /// Most recent commits that touched this file.
    pub recent_commits: Vec<CommitBrief>,
    pub warnings: Vec<String>,
}

/// A symbol the file defines.
#[derive(Debug)]
pub struct SymbolBrief {
    pub name: String,
    pub kind: String,
    pub line: Option<i64>,
    /// Compact location anchor: "file:line name"
    pub anchor: String,
}

/// Another file and the symbols through which it is related.
#[derive(Debug)]
pub struct CrossRef {
    pub file: String,
    pub symbols: Vec<String>,
}

/// A decision governing the file.
#[derive(Debug)]
pub struct DecisionBrief {
    pub adr_id: String,
    pub title: String,
    pub status: String,
}

/// A recent commit touching the file.
#[derive(Debug)]
pub struct CommitBrief {
    pub sha7: String,
    pub message: String,
    pub date: String,
}

/// A brief names a file or a symbol.
pub fn brief_target_given(params: &FileBriefParams) -> (b: bool)
    ensures
        b == (params.file is Some || params.symbol is Some),
{
    params.file.is_some() || params.symbol.is_some()
}

/// The distinct files of `pairs`, in order of first appearance.
pub open spec fn files_in_order(pairs: Seq<(String, String)>) -> Seq<Seq<char>>
    decreases pairs.len(),
{
    if pairs.len() == 0 {
        Seq::empty()
    } else {
        let rest = files_in_order(pairs.drop_last());
        if rest.contains(pairs.last().0@) {
            rest
        } else {
            rest.push(pairs.last().0@)
        }
    }
}

/// The symbols paired with `file`, in order.
pub open spec fn symbols_of(pairs: Seq<(String, String)>, file: Seq<char>) -> Seq<Seq<char>>
    decreases pairs.len(),
{
    if pairs.len() == 0 {
        Seq::empty()
    } else if pairs.last().0@ == file {
        symbols_of(pairs.drop_last(), file).push(pairs.last().1@)
    } else {
        symbols_of(pairs.drop_last(), file)
    }
}

fn index_of_file(groups: &Vec<CrossRef>, file: &String) -> (r: Option<usize>)
    ensures
        match r {
            Some(i) => i < groups@.len() && groups@[i as int].file@ == file@,
            None => forall|k: int| 0 <= k < groups@.len() ==> groups@[k].file@ != file@,
        },
{
    let mut i: usize = 0;
    while i < groups.len()
        invariant
            i <= groups.len(),
            forall|k: int| 0 <= k < i ==> groups@[k].file@ != file@,
        decreases groups.len() - i,
    {
        if crate::text::str_eq(groups[i].file.as_str(), file.as_str()) {
            return Some(i);
        }
        i = i + 1;
    }
    None
}

/// Groups `(file, symbol)` pairs by file: one entry per file in order of
/// first appearance, holding that file's symbols in order.
pub fn group_by_file(pairs: Vec<(String, String)>) -> (groups: Vec<CrossRef>)
    ensures
        groups@.map_values(|g: CrossRef| g.file@) == files_in_order(pairs@),
        forall|k: int|
            0 <= k < groups@.len() ==> views(#[trigger] groups@[k].symbols@) == symbols_of(
                pairs@,
                groups@[k].file@,
            ),
{
    let mut groups: Vec<CrossRef> = Vec::new();
    let mut i: usize = 0;
    proof {
        assert(pairs@.take(0) =~= Seq::<(String, String)>::empty());
        assert(groups@.map_values(|g: CrossRef| g.file@) =~= Seq::<Seq<char>>::empty());
    }
    while i < pairs.len()
        invariant
            i <= pairs.len(),
            groups@.map_values(|g: CrossRef| g.file@) == files_in_order(pairs@.take(i as int)),
            forall|k: int|
                0 <= k < groups@.len() ==> views(#[trigger] groups@[k].symbols@) == symbols_of(
                    pairs@.take(i as int),
                    groups@[k].file@,
                ),
            forall|a: int, b: int|
                0 <= a < groups@.len() && 0 <= b < groups@.len() && a != b ==> #[trigger] groups@[a].file@
                    != #[trigger] groups@[b].file@,
        decreases pairs.len() - i,
    {
        let ghost pre = pairs@.take(i as int);
        let ghost post = pairs@.take(i + 1);
        let ghost fs = groups@.map_values(|g: CrossRef| g.file@);
        proof {
            assert(post.drop_last() == pre);
            assert(post.last() == pairs@[i as int]);
        }
        let file = crate::text::copy_string(&pairs[i].0);
        let sym = crate::text::copy_string(&pairs[i].1);
        match index_of_file(&groups, &file) {
            Some(k) => {
                let ghost old_groups = groups@;
                proof {
                    assert(fs[k as int] == file@);
                    assert(fs.contains(file@));
                }
                let mut g = groups.remove(k);
                proof {
                    assert(g == old_groups[k as int]);
                    assert(views(g.symbols@.push(sym)) =~= views(g.symbols@).push(sym@));
                }
                g.symbols.push(sym);
                let ghost g2 = g;
                groups.insert(k, g);
                proof {
                    assert(groups@[k as int] == g2);
                    assert(views(g2.symbols@) == symbols_of(pre, file@).push(sym@));
                    assert(groups@.map_values(|g: CrossRef| g.file@) =~= fs);
                    assert forall|j: int| 0 <= j < groups@.len() implies views(#[trigger] groups@[j].symbols@) == symbols_of(post, groups@[j].file@) by {
                        if j != k {
                            assert(groups@[j] == old_groups[j]);
                        }
                    }
                }
            },
            None => {
                proof {
                    assert(!fs.contains(file@)) by {
                        if fs.contains(file@) {
                            let j = choose|j: int| 0 <= j < fs.len() && fs[j] == file@;
                            assert(groups@[j].file@ == file@);
                        }
                    }
                }
                let mut syms: Vec<String> = Vec::new();
                proof {
                    assert(views(syms@.push(sym)) =~= seq![sym@]);
                    assert(symbols_of(pre, file@) =~= Seq::<Seq<char>>::empty()) by {
                        lemma_symbols_absent(pre, file@);
                    }
                }
                syms.push(sym);
                let ghost old_groups = groups@;
                groups.push(CrossRef { file, symbols: syms });
                proof {
                    assert(groups@.map_values(|g: CrossRef| g.file@) =~= fs.push(groups@[old_groups.len() as int].file@));
                    assert forall|j: int| 0 <= j < groups@.len() implies views(#[trigger] groups@[j].symbols@) == symbols_of(post, groups@[j].file@) by {
                        if j < old_groups.len() {
                            assert(groups@[j] == old_groups[j]);
                            assert(fs[j] != pairs@[i as int].0@);
                        }
                    }
                }
            },
        }
        i = i + 1;
    }
    proof {
        assert(pairs@.take(pairs.len() as int) == pairs@);
    }
    groups
}

proof fn lemma_symbols_absent(pairs: Seq<(String, String)>, file: Seq<char>)
    requires
        !files_in_order(pairs).contains(file),
    ensures
        symbols_of(pairs, file) == Seq::<Seq<char>>::empty(),
    decreases pairs.len(),
{
    if pairs.len() > 0 {
        let rest = files_in_order(pairs.drop_last());
        if rest.contains(file) {
            assert(false) by {
                let j = choose|j: int| 0 <= j < rest.len() && rest[j] == file;
                if !rest.contains(pairs.last().0@) {
                    assert(rest.push(pairs.last().0@)[j] == file);
                }
            }
        }
        if pairs.last().0@ == file {
            if rest.contains(pairs.last().0@) {
            } else {
                assert(rest.push(pairs.last().0@)[rest.len() as int] == file);
            }
        }
        lemma_symbols_absent(pairs.drop_last(), file);
    }
}

/// The brief entry of an exported symbol, anchored at `file`.
pub fn symbol_brief(file: &str, name: String, kind: String, line: Option<i64>) -> (s: SymbolBrief)
    ensures
        s.name == name,
        s.kind == kind,
        s.line == line,
        s.anchor@ == anchor_text(file@, line, name@),
{
    let anchor = symbol_anchor(file, line, name.as_str());
    SymbolBrief { name, kind, line, anchor }
}

/// The first line of a commit message (empty for none).
pub open spec fn first_line(message: Option<Seq<char>>) -> Seq<char> {
    match message {
        Some(m) => if crate::scan::lines(m).len() > 0 {
            crate::scan::lines(m)[0]
        } else {
            Seq::empty()
        },
        None => Seq::empty(),
    }
}

/// The brief entry of a commit: the first seven characters of its SHA and
/// the first line of its message.
pub fn commit_brief(sha: &str, message: Option<String>, date: String) -> (c: CommitBrief)
    ensures
        c.sha7@ == (if sha@.len() <= 7 { sha@ } else { sha@.take(7) }),
        c.message@ == first_line(match message {
            Some(m) => Some(m@),
            None => None,
        }),
        c.date == date,
{
    let cs = crate::text::chars_of(sha);
    let n = if cs.len() <= 7 { cs.len() } else { 7 };
    let s7 = crate::scan::slice_chars(&cs, 0, n);
    proof {
        if cs.len() <= 7 {
            assert(s7@ == sha@);
        }
    }
    let msg = match &message {
        Some(m) => {
            let mc = crate::text::chars_of(m.as_str());
            let ls = crate::scan::split_lines(&mc);
            if ls.len() > 0 {
                crate::text::string_of(&ls[0])
            } else {
                String::new()
            }
        },
        None => String::new(),
    };
    CommitBrief { sha7: crate::text::string_of(&s7), message: msg, date }
}

} // verus!
