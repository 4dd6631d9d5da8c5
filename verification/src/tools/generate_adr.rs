//! Drafting a new ADR and rendering it as a patch: the Markdown template, the
//! unified diff, and the checks on where the ADR may be written.

use vstd::prelude::*;

use crate::text::{decimal, push_char, push_decimal, push_str, trim, trim_spec, views};
use crate::tools::sync_commits::{pad4, push_pad4};

verus! {

// ---------------------------------------------------------------------------
// Requests and results
// ---------------------------------------------------------------------------

/// Request to draft the next ADR.
#[derive(Debug)]
pub struct GenerateAdrDraftParams {
    /// Absolute path to the repository root.
    pub repo_path: String,
    /// Title for the new ADR, e.g. "Use Postgres for user data".
    pub title: String,
    /// Background and motivation for this decision.
    pub context: Option<String>,
    /// The decision being proposed.
    pub proposed_decision: Option<String>,
    /// File or module paths affected by this decision.
    pub affected_files: Vec<String>,
}

/// A drafted ADR.
#[derive(Debug)]
pub struct GenerateAdrDraftResult {
    /// The next ADR identifier that would be assigned, e.g. "ADR-0003".
    pub id: String,
    /// Rendered Markdown content ready to be written to a file.
    pub markdown: String,
    pub warnings: Vec<String>,
}

/// Request to render an ADR as a patch.
#[derive(Debug)]
pub struct GenerateAdrPatchParams {
    /// Absolute path to the repository root.
    pub repo_path: String,
    /// ADR markdown path relative to the repository root.
    pub adr_path: String,
    /// Complete ADR markdown content to write at `adr_path`.
    pub draft: String,
}

/// The patch that would write an ADR.
#[derive(Debug)]
pub struct GenerateAdrPatchResult {
    pub adr_path: String,
    pub operation: String,
    pub patch: String,
    pub warnings: Vec<String>,
}

// ---------------------------------------------------------------------------
// The Markdown template
// ---------------------------------------------------------------------------

/// A free-text section: the trimmed text, or a placeholder when it is absent
/// or blank.
pub open spec fn section_body(text: Option<Seq<char>>) -> Seq<char> {
    match text {
        Some(c) => if trim_spec(c).len() > 0 {
            trim_spec(c) + "\n\n"@
        } else {
            "_Not specified_\n\n"@
        },
        None => "_Not specified_\n\n"@,
    }
}

/// One list line per affected file, in backticks.
pub open spec fn file_bullets(fs: Seq<Seq<char>>) -> Seq<char>
    decreases fs.len(),
{
    if fs.len() == 0 {
        Seq::empty()
    } else {
        file_bullets(fs.drop_last()) + "- `"@ + fs.last() + "`\n"@
    }
}

/// One list line per related ADR id.
pub open spec fn id_bullets(ids: Seq<Seq<char>>) -> Seq<char>
    decreases ids.len(),
{
    if ids.len() == 0 {
        Seq::empty()
    } else {
        id_bullets(ids.drop_last()) + "- "@ + ids.last() + "\n"@
    }
}

/// The rendered ADR: heading, `Proposed` status and date, the context and
/// decision sections, placeholders for consequences, constraints and
/// alternatives, the affected files and the related decisions.
pub open spec fn adr_markdown(
    id: Seq<char>,
    title: Seq<char>,
    date: Seq<char>,
    context: Option<Seq<char>>,
    decision: Option<Seq<char>>,
    files: Seq<Seq<char>>,
    related: Seq<Seq<char>>,
) -> Seq<char> {
    "# "@ + id + ": "@ + title + "\n\n"@ + "## Status\n\nProposed\n\n"@ + "Date: "@ + date
        + "\n\n"@ + "## Context\n\n"@ + section_body(context) + "## Decision\n\n"@ + section_body(
        decision,
    ) + "## Consequences\n\n_Not specified_\n\n"@ + "## Constraints\n\n_None specified_\n\n"@
        + "## Alternatives Considered\n\n_None_\n\n"@ + "## Affected Code\n\n"@ + (if files.len()
        == 0 {
        "_None identified_\n\n"@
    } else {
        file_bullets(files) + "\n"@
    }) + "## Related Decisions\n\n"@ + (if related.len() == 0 {
        "_None_\n"@
    } else {
        id_bullets(related)
    })
}

/// Optional text, by its characters.
pub open spec fn opt_view(o: Option<String>) -> Option<Seq<char>> {
    match o {
        Some(s) => Some(s@),
        None => None,
    }
}

fn push_section(out: &mut String, text: &Option<String>)
    ensures
        final(out)@ == old(out)@ + section_body(opt_view(*text)),
{
    match text {
        Some(c) => {
            let t = trim(c.as_str());
            if crate::text::chars_of(t.as_str()).len() > 0 {
                proof {
                    assert(t@.len() > 0);
                }
                push_str(out, t.as_str());
                push_str(out, "\n\n");
                proof {
                    assert(final(out)@ == old(out)@ + (t@ + "\n\n"@)) by {
                        assert(old(out)@ + t@ + "\n\n"@ =~= old(out)@ + (t@ + "\n\n"@));
                    }
                }
            } else {
                proof {
                    assert(t@.len() == 0);
                }
                push_str(out, "_Not specified_\n\n");
            }
        },
        None => push_str(out, "_Not specified_\n\n"),
    }
}

/// Renders the Markdown of a new ADR (`adr_markdown`).
pub fn render_template(
    id: &str,
    title: &str,
    date: &str,
    context: &Option<String>,
    proposed_decision: &Option<String>,
    affected_files: &Vec<String>,
    related_ids: &Vec<String>,
) -> (out: String)
    ensures
        out@ == adr_markdown(
            id@,
            title@,
            date@,
            opt_view(*context),
            opt_view(*proposed_decision),
            views(affected_files@),
            views(related_ids@),
        ),
{
    let mut out = String::new();
    push_str(&mut out, "# ");
    push_str(&mut out, id);
    push_str(&mut out, ": ");
    push_str(&mut out, title);
    push_str(&mut out, "\n\n");
    push_str(&mut out, "## Status\n\nProposed\n\n");
    push_str(&mut out, "Date: ");
    push_str(&mut out, date);
    push_str(&mut out, "\n\n");
    push_str(&mut out, "## Context\n\n");
    push_section(&mut out, context);
    push_str(&mut out, "## Decision\n\n");
    push_section(&mut out, proposed_decision);
    push_str(&mut out, "## Consequences\n\n_Not specified_\n\n");
    push_str(&mut out, "## Constraints\n\n_None specified_\n\n");
    push_str(&mut out, "## Alternatives Considered\n\n_None_\n\n");
    push_str(&mut out, "## Affected Code\n\n");
    let ghost head = out@;
    let ghost fs = views(affected_files@);
    if affected_files.len() == 0 {
        push_str(&mut out, "_None identified_\n\n");
    } else {
        let mut i: usize = 0;
        proof {
            assert(fs.take(0) =~= Seq::<Seq<char>>::empty());
            assert(head + file_bullets(fs.take(0)) =~= head);
        }
        while i < affected_files.len()
            invariant
                i <= affected_files.len(),
                fs == views(affected_files@),
                out@ == head + file_bullets(fs.take(i as int)),
            decreases affected_files.len() - i,
        {
            let ghost before = out@;
            push_str(&mut out, "- `");
            push_str(&mut out, affected_files[i].as_str());
            push_str(&mut out, "`\n");
            proof {
                let t = fs.take(i + 1);
                assert(t.drop_last() == fs.take(i as int));
                assert(t.last() == affected_files@[i as int]@);
                assert(out@ =~= head + file_bullets(t));
            }
            i = i + 1;
        }
        proof {
            assert(fs.take(affected_files.len() as int) == fs);
        }
        push_str(&mut out, "\n");
        proof {
            assert(out@ =~= head + (file_bullets(fs) + "\n"@));
        }
    }
    push_str(&mut out, "## Related Decisions\n\n");
    let ghost head2 = out@;
    let ghost rs = views(related_ids@);
    if related_ids.len() == 0 {
        push_str(&mut out, "_None_\n");
    } else {
        let mut i: usize = 0;
        proof {
            assert(rs.take(0) =~= Seq::<Seq<char>>::empty());
            assert(head2 + id_bullets(rs.take(0)) =~= head2);
        }
        while i < related_ids.len()
            invariant
                i <= related_ids.len(),
                rs == views(related_ids@),
                out@ == head2 + id_bullets(rs.take(i as int)),
            decreases related_ids.len() - i,
        {
            push_str(&mut out, "- ");
            push_str(&mut out, related_ids[i].as_str());
            push_str(&mut out, "\n");
            proof {
                let t = rs.take(i + 1);
                assert(t.drop_last() == rs.take(i as int));
                assert(t.last() == related_ids@[i as int]@);
                assert(out@ =~= head2 + id_bullets(t));
            }
            i = i + 1;
        }
        proof {
            assert(rs.take(related_ids.len() as int) == rs);
        }
    }
    proof {
        let files_part = if fs.len() == 0 {
            "_None identified_\n\n"@
        } else {
            file_bullets(fs) + "\n"@
        };
        let related_part = if rs.len() == 0 {
            "_None_\n"@
        } else {
            id_bullets(rs)
        };
        assert(out@ =~= head + files_part + "## Related Decisions\n\n"@ + related_part);
    }
    out
}

/// The identifier of ADR number `n`: `ADR-` and the number zero-padded to
/// four digits.
pub open spec fn adr_id(n: nat) -> Seq<char> {
    "ADR-"@ + pad4(decimal(n))
}

/// Formats the identifier of ADR number `n` (`ADR-{:04}`).
pub fn format_adr_id(n: u64) -> (r: String)
    ensures
        r@ == adr_id(n as nat),
{
    let mut r = String::new();
    push_str(&mut r, "ADR-");
    push_pad4(&mut r, n);
    r
}

/// Why a draft request is refused before anything is looked up.
#[derive(Debug, Clone, Copy, PartialEq, Eq, Structural)]
pub enum DraftError {
    /// The title is empty or blank.
    EmptyTitle,
}

/// The draft for ADR number `n`, dated `date`, citing at most the first five
/// related ADR ids; refused when the title is blank.
pub fn draft_adr(
    params: &GenerateAdrDraftParams,
    n: u64,
    date: &str,
    related: &Vec<String>,
) -> (r: Result<GenerateAdrDraftResult, DraftError>)
    ensures
        trim_spec(params.title@).len() == 0 <==> r is Err,
        r matches Ok(d) ==> {
            &&& d.id@ == adr_id(n as nat)
            &&& d.markdown@ == adr_markdown(
                adr_id(n as nat),
                params.title@,
                date@,
                opt_view(params.context),
                opt_view(params.proposed_decision),
                views(params.affected_files@),
                if related@.len() <= 5 {
                    views(related@)
                } else {
                    views(related@).take(5)
                },
            )
            &&& d.warnings@.len() == 0
        },
{
    let t = trim(params.title.as_str());
    if crate::text::chars_of(t.as_str()).len() == 0 {
        proof {
            assert(t@.len() == 0);
        }
        return Err(DraftError::EmptyTitle);
    }
    let id = format_adr_id(n);
    let mut top: Vec<String> = Vec::new();
    let mut i: usize = 0;
    let ghost rv = views(related@);
    while i < related.len() && i < 5
        invariant
            i <= related.len(),
            i <= 5,
            rv == views(related@),
            views(top@) == rv.take(i as int),
        decreases related.len() - i,
    {
        let c = crate::text::string_of(&crate::text::chars_of(related[i].as_str()));
        proof {
            assert(views(top@.push(c)) =~= views(top@).push(c@));
            assert(rv.take(i + 1) == rv.take(i as int).push(rv[i as int]));
        }
        top.push(c);
        i = i + 1;
    }
    proof {
        if related@.len() <= 5 {
            assert(rv.take(related@.len() as int) == rv);
        }
    }
    let markdown = render_template(
        id.as_str(),
        params.title.as_str(),
        date,
        &params.context,
        &params.proposed_decision,
        &params.affected_files,
        &top,
    );
    Ok(GenerateAdrDraftResult { id, markdown, warnings: Vec::new() })
}

// ---------------------------------------------------------------------------
// The patch
// ---------------------------------------------------------------------------

/// `s` with `\r\n` and then every remaining `\r` turned into `\n`.
pub open spec fn unify_newlines(s: Seq<char>) -> Seq<char>
    decreases s.len(),
{
    if s.len() == 0 {
        Seq::empty()
    } else if s[0] == '\r' && s.len() >= 2 && s[1] == '\n' {
        seq!['\n'] + unify_newlines(s.skip(2))
    } else if s[0] == '\r' {
        seq!['\n'] + unify_newlines(s.skip(1))
    } else {
        seq![s[0]] + unify_newlines(s.skip(1))
    }
}

/// The pieces of `s` between newlines (`str::split('\n')`): one more than
/// the number of newlines.
pub open spec fn split_newlines(s: Seq<char>) -> Seq<Seq<char>>
    decreases s.len(),
{
    if s.len() == 0 {
        seq![Seq::empty()]
    } else {
        let rest = split_newlines(s.drop_last());
        if s.last() == '\n' {
            rest.push(Seq::empty())
        } else {
            rest.update(rest.len() - 1, rest.last().push(s.last()))
        }
    }
}

/// The lines a patch shows for a text.
pub open spec fn patch_lines(s: Seq<char>) -> Seq<Seq<char>> {
    split_newlines(unify_newlines(s))
}

proof fn lemma_split_newlines_nonempty(s: Seq<char>)
    ensures
        split_newlines(s).len() >= 1,
    decreases s.len(),
{
    if s.len() > 0 {
        lemma_split_newlines_nonempty(s.drop_last());
    }
}

fn unify_newlines_exec(s: &[char]) -> (r: Vec<char>)
    ensures
        r@ == unify_newlines(s@),
{
    let mut r: Vec<char> = Vec::new();
    let mut i: usize = 0;
    proof {
        assert(s@.skip(0) == s@);
    }
    while i < s.len()
        invariant
            i <= s.len(),
            unify_newlines(s@) == r@ + unify_newlines(s@.skip(i as int)),
        decreases s.len() - i,
    {
        let ghost rest = s@.skip(i as int);
        if s[i] == '\r' && i + 1 < s.len() && s[i + 1] == '\n' {
            proof {
                assert(rest.skip(2) == s@.skip(i + 2));
                assert(r@ + (seq!['\n'] + unify_newlines(rest.skip(2))) == r@.push('\n') + unify_newlines(rest.skip(2)));
            }
            r.push('\n');
            i = i + 2;
        } else {
            let c = if s[i] == '\r' { '\n' } else { s[i] };
            proof {
                assert(rest.skip(1) == s@.skip(i + 1));
                assert(r@ + (seq![c] + unify_newlines(rest.skip(1))) == r@.push(c) + unify_newlines(rest.skip(1)));
            }
            r.push(c);
            i = i + 1;
        }
    }
    proof {
        assert(s@.skip(i as int) == Seq::<char>::empty());
        assert(r@ + Seq::<char>::empty() == r@);
    }
    r
}

/// The lines of `text` for a patch: line endings unified to `\n`, then split
/// at every `\n` (a final newline leaves an empty last line).
pub fn split_patch_lines(text: &str) -> (out: Vec<String>)
    ensures
        views(out@) == patch_lines(text@),
{
    let cs = crate::text::chars_of(text);
    let u = unify_newlines_exec(&cs);
    let mut out: Vec<String> = Vec::new();
    let mut cur: Vec<char> = Vec::new();
    let mut i: usize = 0;
    proof {
        assert(u@.take(0) == Seq::<char>::empty());
        assert(views(out@) =~= Seq::<Seq<char>>::empty());
    }
    while i < u.len()
        invariant
            i <= u.len(),
            split_newlines(u@.take(i as int)) == views(out@).push(cur@),
        decreases u.len() - i,
    {
        let c = u[i];
        proof {
            assert(u@.take(i + 1).drop_last() == u@.take(i as int));
            assert(u@.take(i + 1).last() == c);
        }
        if c == '\n' {
            let piece = crate::text::string_of(&cur);
            proof {
                assert(views(out@.push(piece)) =~= views(out@).push(cur@));
            }
            out.push(piece);
            cur = Vec::new();
        } else {
            proof {
                assert(views(out@).push(cur@).update(views(out@).len() as int, cur@.push(c))
                    =~= views(out@).push(cur@.push(c)));
            }
            cur.push(c);
        }
        i = i + 1;
    }
    proof {
        assert(u@.take(u.len() as int) == u@);
    }
    let last = crate::text::string_of(&cur);
    proof {
        assert(views(out@.push(last)) =~= views(out@).push(cur@));
    }
    out.push(last);
    out
}

/// Each line prefixed with `mark` and ended with a newline.
pub open spec fn marked_lines(ls: Seq<Seq<char>>, mark: char) -> Seq<char>
    decreases ls.len(),
{
    if ls.len() == 0 {
        Seq::empty()
    } else {
        marked_lines(ls.drop_last(), mark) + seq![mark] + ls.last() + seq!['\n']
    }
}

/// The larger of `n` and 1.
pub open spec fn at_least_one(n: nat) -> nat {
    if n >= 1 {
        n
    } else {
        1
    }
}

/// A unified diff that replaces the whole of `old` (or creates the file)
/// with `new`, as a single hunk.
pub open spec fn unified_patch(path: Seq<char>, old: Option<Seq<char>>, new: Seq<char>) -> Seq<char> {
    let old_lines = match old {
        Some(o) => patch_lines(o),
        None => Seq::empty(),
    };
    let new_lines = patch_lines(new);
    let old_marker = match old {
        Some(_) => "a/"@ + path,
        None => "/dev/null"@,
    };
    "diff --git a/"@ + path + " b/"@ + path + "\n"@ + (if old is None {
        "new file mode 100644\n"@
    } else {
        Seq::empty()
    }) + "--- "@ + old_marker + "\n"@ + "+++ "@ + ("b/"@ + path) + "\n"@ + "@@ -1,"@ + decimal(
        at_least_one(old_lines.len()),
    ) + " +1,"@ + decimal(at_least_one(new_lines.len())) + " @@\n"@ + marked_lines(old_lines, '-')
        + marked_lines(new_lines, '+')
}

fn push_marked(out: &mut String, ls: &Vec<String>, mark: char)
    ensures
        final(out)@ == old(out)@ + marked_lines(views(ls@), mark),
{
    let ghost vs = views(ls@);
    let mut i: usize = 0;
    proof {
        assert(vs.take(0) =~= Seq::<Seq<char>>::empty());
        assert(out@ =~= old(out)@ + marked_lines(vs.take(0), mark));
    }
    while i < ls.len()
        invariant
            i <= ls.len(),
            vs == views(ls@),
            out@ == old(out)@ + marked_lines(vs.take(i as int), mark),
        decreases ls.len() - i,
    {
        push_char(out, mark);
        push_str(out, ls[i].as_str());
        push_char(out, '\n');
        proof {
            let t = vs.take(i + 1);
            assert(t.drop_last() == vs.take(i as int));
            assert(t.last() == ls@[i as int]@);
            assert(out@ =~= old(out)@ + marked_lines(t, mark));
        }
        i = i + 1;
    }
    proof {
        assert(vs.take(ls.len() as int) == vs);
    }
}

/// Renders the patch that writes `new` at `path`, replacing `old` when the
/// file exists (`unified_patch`).
pub fn render_unified_patch(path: &str, old: Option<&str>, new: &str) -> (patch: String)
    ensures
        patch@ == unified_patch(
            path@,
            match old {
                Some(o) => Some(o@),
                None => None,
            },
            new@,
        ),
{
    let old_lines: Vec<String> = match old {
        Some(o) => split_patch_lines(o),
        None => Vec::new(),
    };
    let new_lines = split_patch_lines(new);
    proof {
        if old is None {
            assert(views(old_lines@) =~= Seq::<Seq<char>>::empty());
        }
    }
    let old_count = old_lines.len();
    let new_count = new_lines.len();
    let mut patch = String::new();
    push_str(&mut patch, "diff --git a/");
    push_str(&mut patch, path);
    push_str(&mut patch, " b/");
    push_str(&mut patch, path);
    push_str(&mut patch, "\n");
    let ghost p0 = patch@;
    if old.is_none() {
        push_str(&mut patch, "new file mode 100644\n");
    }
    let ghost p1 = patch@;
    push_str(&mut patch, "--- ");
    let ghost p2 = patch@;
    match old {
        Some(_) => {
            push_str(&mut patch, "a/");
            push_str(&mut patch, path);
        },
        None => push_str(&mut patch, "/dev/null"),
    }
    let ghost p3 = patch@;
    push_str(&mut patch, "\n");
    push_str(&mut patch, "+++ ");
    let ghost p4 = patch@;
    push_str(&mut patch, "b/");
    push_str(&mut patch, path);
    let ghost p5 = patch@;
    push_str(&mut patch, "\n");
    push_str(&mut patch, "@@ -1,");
    push_decimal(&mut patch, if old_count >= 1 { old_count as u64 } else { 1 });
    push_str(&mut patch, " +1,");
    push_decimal(&mut patch, if new_count >= 1 { new_count as u64 } else { 1 });
    push_str(&mut patch, " @@\n");
    let ghost p6 = patch@;
    push_marked(&mut patch, &old_lines, '-');
    push_marked(&mut patch, &new_lines, '+');
    proof {
        let oldv = match old {
            Some(o) => Some(o@),
            None => None,
        };
        let om = match oldv {
            Some(_) => "a/"@ + path@,
            None => "/dev/null"@,
        };
        assert(p1 == p0 + (if oldv is None { "new file mode 100644\n"@ } else { Seq::<char>::empty() }));
        assert(p3 =~= p2 + om);
        assert(p5 =~= p4 + ("b/"@ + path@));
        assert(patch@ =~= unified_patch(path@, oldv, new@));
    }
    patch
}

/// The result of planning a patch for an ADR at `rel`: `update` when the
/// file exists, `create` when not.
pub fn adr_patch_result(rel: String, old: Option<String>, draft: &str) -> (r: GenerateAdrPatchResult)
    ensures
        r.adr_path@ == rel@,
        r.operation@ == (if old is Some { "update"@ } else { "create"@ }),
        r.patch@ == unified_patch(rel@, opt_view(old), draft@),
        r.warnings@.len() == 0,
{
    let patch = match &old {
        Some(o) => render_unified_patch(rel.as_str(), Some(o.as_str()), draft),
        None => render_unified_patch(rel.as_str(), None, draft),
    };
    let operation = if old.is_some() {
        String::from_str("update")
    } else {
        String::from_str("create")
    };
    GenerateAdrPatchResult { adr_path: rel, operation, patch, warnings: Vec::new() }
}


// ---------------------------------------------------------------------------
// Where the ADR may be written
// ---------------------------------------------------------------------------

/// A component of a filesystem path (`std::path::Component`).
#[derive(Debug)]
pub enum PathPart {
    /// A Windows path prefix, by its text.
    Prefix(String),
    RootDir,
    CurDir,
    ParentDir,
    Normal(String),
}

/// `path` with `.` removed and each `..` cancelling the ordinary component
/// before it; a `..` with no such component before it stays.
pub open spec fn normalize_parts(path: Seq<PathPart>) -> Seq<PathPart>
    decreases path.len(),
{
    if path.len() == 0 {
        Seq::empty()
    } else {
        let out = normalize_parts(path.drop_last());
        match path.last() {
            PathPart::CurDir => out,
            PathPart::ParentDir => if out.len() > 0 && out.last() is Normal {
                out.drop_last()
            } else {
                out.push(PathPart::ParentDir)
            },
            other => out.push(other),
        }
    }
}

/// Lexical normalisation of a path's components (no filesystem access).
pub fn normalize_lexical(path: Vec<PathPart>) -> (out: Vec<PathPart>)
    ensures
        out@ == normalize_parts(path@),
{
    let ghost orig = path@;
    let mut rest = path;
    let mut out: Vec<PathPart> = Vec::new();
    proof {
        assert(orig.take(0) =~= Seq::<PathPart>::empty());
        assert(orig.skip(0) == orig);
    }
    while rest.len() > 0
        invariant
            rest@ == orig.skip(orig.len() - rest@.len()),
            rest@.len() <= orig.len(),
            out@ == normalize_parts(orig.take(orig.len() - rest@.len())),
        decreases rest.len(),
    {
        let ghost i = orig.len() - rest@.len();
        let c = rest.remove(0);
        proof {
            assert(c == orig[i]);
            assert(orig.take(i + 1).drop_last() == orig.take(i));
            assert(orig.take(i + 1).last() == c);
            assert(rest@ == orig.skip(i + 1));
        }
        match c {
            PathPart::CurDir => {},
            PathPart::ParentDir => {
                let pop = match out.last() {
                    Some(PathPart::Normal(_)) => true,
                    _ => false,
                };
                if pop {
                    out.pop();
                } else {
                    out.push(PathPart::ParentDir);
                }
            },
            other => {
                out.push(other);
            },
        }
    }
    proof {
        assert(orig.take(orig.len() as int) == orig);
    }
    out
}

/// Two components are the same.
pub open spec fn same_part(a: PathPart, b: PathPart) -> bool {
    match (a, b) {
        (PathPart::Prefix(x), PathPart::Prefix(y)) => x@ == y@,
        (PathPart::RootDir, PathPart::RootDir) => true,
        (PathPart::CurDir, PathPart::CurDir) => true,
        (PathPart::ParentDir, PathPart::ParentDir) => true,
        (PathPart::Normal(x), PathPart::Normal(y)) => x@ == y@,
        _ => false,
    }
}

/// `path` starts with the components of `base` (`Path::starts_with`).
pub open spec fn parts_start_with(path: Seq<PathPart>, base: Seq<PathPart>) -> bool {
    base.len() <= path.len() && forall|i: int| 0 <= i < base.len() ==> #[trigger] same_part(path[i], base[i])
}

/// The text of a component as a path prints it.
pub open spec fn part_text(p: PathPart) -> Seq<char> {
    match p {
        PathPart::Prefix(x) => x@,
        PathPart::RootDir => "/"@,
        PathPart::CurDir => "."@,
        PathPart::ParentDir => ".."@,
        PathPart::Normal(x) => x@,
    }
}

/// The components printed and joined with `/`.
pub open spec fn parts_text(ps: Seq<PathPart>) -> Seq<char> {
    crate::scan::join(ps.map_values(|p: PathPart| part_text(p)), "/"@)
}

/// `s` with every backslash turned into a slash.
pub open spec fn slashes(s: Seq<char>) -> Seq<char> {
    s.map_values(|c: char| if c == '\\' { '/' } else { c })
}

/// Why an ADR path is refused.
#[derive(Debug, Clone, Copy, PartialEq, Eq, Structural)]
pub enum AdrPathError {
    /// The normalised path leaves the repository root.
    EscapesRoot,
    /// The path does not name a file inside the repository.
    NotAFile,
}

impl AdrPathError {
    /// The explanation given to the caller.
    pub fn message(&self) -> (m: String)
        ensures
            *self == AdrPathError::EscapesRoot ==> m@ == "ADR path escapes the repository root"@,
            *self == AdrPathError::NotAFile ==> m@ == "ADR path must name a file"@,
    {
        match self {
            AdrPathError::EscapesRoot => String::from_str("ADR path escapes the repository root"),
            AdrPathError::NotAFile => String::from_str("ADR path must name a file"),
        }
    }
}

/// The repository-relative path of an ADR: the components of `target` after
/// those of the repository root, joined with `/`.
pub open spec fn relative_text(target: Seq<PathPart>, repo_len: int) -> Seq<char> {
    slashes(parts_text(target.skip(repo_len)))
}

fn part_eq(a: &PathPart, b: &PathPart) -> (r: bool)
    ensures
        r == same_part(*a, *b),
{
    match (a, b) {
        (PathPart::Prefix(x), PathPart::Prefix(y)) => crate::text::str_eq(x.as_str(), y.as_str()),
        (PathPart::RootDir, PathPart::RootDir) => true,
        (PathPart::CurDir, PathPart::CurDir) => true,
        (PathPart::ParentDir, PathPart::ParentDir) => true,
        (PathPart::Normal(x), PathPart::Normal(y)) => crate::text::str_eq(x.as_str(), y.as_str()),
        _ => false,
    }
}

fn push_part(out: &mut String, p: &PathPart)
    ensures
        final(out)@ == old(out)@ + part_text(*p),
{
    match p {
        PathPart::Prefix(x) => push_str(out, x.as_str()),
        PathPart::RootDir => push_str(out, "/"),
        PathPart::CurDir => push_str(out, "."),
        PathPart::ParentDir => push_str(out, ".."),
        PathPart::Normal(x) => push_str(out, x.as_str()),
    }
}

pub fn starts_with_parts(path: &Vec<PathPart>, base: &Vec<PathPart>) -> (r: bool)
    ensures
        r == parts_start_with(path@, base@),
{
    if base.len() > path.len() {
        return false;
    }
    let mut i: usize = 0;
    while i < base.len()
        invariant
            i <= base.len() <= path.len(),
            forall|j: int| 0 <= j < i ==> #[trigger] same_part(path@[j], base@[j]),
        decreases base.len() - i,
    {
        if !part_eq(&path[i], &base[i]) {
            return false;
        }
        i = i + 1;
    }
    true
}

pub fn relative_path(target: &Vec<PathPart>, n: usize) -> (rel: Vec<char>)
    requires
        n <= target.len(),
    ensures
        rel@ == relative_text(target@, n as int),
{
    let ghost below = target@.skip(n as int);
    let ghost texts = below.map_values(|p: PathPart| part_text(p));
    let mut raw = String::new();
    let mut k: usize = n;
    proof {
        assert(texts.take(0) =~= Seq::<Seq<char>>::empty());
    }
    while k < target.len()
        invariant
            n <= k <= target.len(),
            below == target@.skip(n as int),
            texts == below.map_values(|p: PathPart| part_text(p)),
            raw@ == crate::scan::join(texts.take(k - n), "/"@),
        decreases target.len() - k,
    {
        if k > n {
            push_str(&mut raw, "/");
        }
        push_part(&mut raw, &target[k]);
        proof {
            let t = texts.take(k + 1 - n);
            assert(t.drop_last() == texts.take(k - n));
            assert(t.last() == part_text(target@[k as int]));
            if k == n {
                assert(t.len() == 1);
                assert(raw@ =~= crate::scan::join(t, "/"@));
            } else {
                assert(raw@ =~= crate::scan::join(t, "/"@));
            }
        }
        k = k + 1;
    }
    proof {
        assert(texts.take(target.len() - n) == texts);
    }
    let rc = crate::text::chars_of(raw.as_str());
    let mut fixed: Vec<char> = Vec::new();
    let mut m: usize = 0;
    while m < rc.len()
        invariant
            m <= rc.len(),
            fixed@ == slashes(rc@).take(m as int),
        decreases rc.len() - m,
    {
        fixed.push(if rc[m] == '\\' { '/' } else { rc[m] });
        proof {
            assert(slashes(rc@).take(m + 1) == slashes(rc@).take(m as int).push(slashes(rc@)[m as int]));
        }
        m = m + 1;
    }
    proof {
        assert(slashes(rc@).take(rc.len() as int) == slashes(rc@));
    }
    fixed
}

/// Checks where an ADR would be written. `repo` holds the components of the
/// canonical repository root and `joined` those of the root joined with the
/// requested ADR path. The joined path is normalised; it must stay under
/// the root, and what lies below the root must name a file (not be blank and
/// not end in `/`). Returns the normalised target and its relative path.
pub fn resolve_adr_path(repo: &Vec<PathPart>, joined: Vec<PathPart>) -> (r: Result<(Vec<PathPart>, String), AdrPathError>)
    ensures
        !parts_start_with(normalize_parts(joined@), repo@) <==> r == Err::<(Vec<PathPart>, String), AdrPathError>(AdrPathError::EscapesRoot),
        parts_start_with(normalize_parts(joined@), repo@) ==> {
            let rel = relative_text(normalize_parts(joined@), repo@.len() as int);
            let bad = trim_spec(rel).len() == 0 || (rel.len() > 0 && rel.last() == '/');
            &&& bad <==> r == Err::<(Vec<PathPart>, String), AdrPathError>(AdrPathError::NotAFile)
            &&& r matches Ok((t, s)) ==> t@ == normalize_parts(joined@) && s@ == rel
        },
{
    let target = normalize_lexical(joined);
    if !starts_with_parts(&target, repo) {
        return Err(AdrPathError::EscapesRoot);
    }
    let fixed = relative_path(&target, repo.len());
    let t = crate::text::trim_chars(&fixed);
    if t.len() == 0 || (fixed.len() > 0 && fixed[fixed.len() - 1] == '/') {
        return Err(AdrPathError::NotAFile);
    }
    let rel = crate::text::string_of(&fixed);
    Ok((target, rel))
}

} // verus!
