//! Finding the first occurrence of a pattern, prefixes, and splitting text
//! into lines the way `str::lines` does.

use vstd::prelude::*;

use crate::text::occurs_at;

verus! {

/// Position of the first occurrence of `pat` in `s` at or after `from`
/// (`s[from..].find(pat)`, as an absolute position).
pub open spec fn find_from(s: Seq<char>, pat: Seq<char>, from: int) -> Option<int>
    decreases s.len() - from,
{
    if from < 0 || from + pat.len() > s.len() {
        None
    } else if occurs_at(s, pat, from) {
        Some(from)
    } else {
        proof {
            assert(pat.len() > 0) by {
                if pat.len() == 0 {
                    assert(s.subrange(from, from + pat.len()) =~= pat);
                }
            }
        }
        find_from(s, pat, from + 1)
    }
}

/// `s` starts with `pre`.
pub open spec fn starts_with(s: Seq<char>, pre: Seq<char>) -> bool {
    pre.len() <= s.len() && s.take(pre.len() as int) == pre
}

/// `line` without one trailing carriage return.
pub open spec fn drop_cr(line: Seq<char>) -> Seq<char> {
    if line.len() > 0 && line.last() == '\r' {
        line.drop_last()
    } else {
        line
    }
}

/// The lines of `s[pos..]`: split after every `'\n'`, the newline and a
/// carriage return right before it removed, no empty line after a final
/// newline.
pub open spec fn lines_from(s: Seq<char>, pos: int) -> Seq<Seq<char>>
    decreases s.len() - pos,
{
    if pos < 0 || pos >= s.len() {
        Seq::empty()
    } else {
        match find_from(s, seq!['\n'], pos) {
            None => seq![s.subrange(pos, s.len() as int)],
            Some(p) => {
                proof {
                    lemma_find_from(s, seq!['\n'], pos);
                }
                seq![drop_cr(s.subrange(pos, p))] + lines_from(s, p + 1)
            },
        }
    }
}

/// `str::lines`.
pub open spec fn lines(s: Seq<char>) -> Seq<Seq<char>> {
    lines_from(s, 0)
}

/// The pieces joined with `sep` between them (`slice::join`).
pub open spec fn join(ps: Seq<Seq<char>>, sep: Seq<char>) -> Seq<char>
    decreases ps.len(),
{
    if ps.len() == 0 {
        Seq::empty()
    } else if ps.len() == 1 {
        ps[0]
    } else {
        join(ps.drop_last(), sep) + sep + ps.last()
    }
}

/// What `find_from` returns is the first occurrence at or after `from`.
pub proof fn lemma_find_from(s: Seq<char>, pat: Seq<char>, from: int)
    requires
        0 <= from,
    ensures
        match find_from(s, pat, from) {
            Some(i) => from <= i && i + pat.len() <= s.len() && occurs_at(s, pat, i) && forall|j: int|
                from <= j < i ==> !#[trigger] occurs_at(s, pat, j),
            None => forall|j: int| from <= j ==> !#[trigger] occurs_at(s, pat, j),
        },
    decreases s.len() - from,
{
    if from + pat.len() > s.len() {
    } else if occurs_at(s, pat, from) {
    } else {
        if pat.len() == 0 {
            assert(s.subrange(from, from + pat.len()) =~= pat);
        }
        lemma_find_from(s, pat, from + 1);
    }
}

/// The first occurrence of `pat` in `hay` at or after `from`.
pub fn find_chars(hay: &[char], pat: &[char], from: usize) -> (r: Option<usize>)
    ensures
        match r {
            Some(i) => find_from(hay@, pat@, from as int) == Some(i as int),
            None => find_from(hay@, pat@, from as int) is None,
        },
{
    let mut i: usize = from;
    while i <= hay.len() && pat.len() <= hay.len() - i
        invariant
            from <= i,
            find_from(hay@, pat@, from as int) == find_from(hay@, pat@, i as int),
        decreases hay.len() + 1 - i,
    {
        if crate::text::occurs_at_exec(hay, pat, i) {
            return Some(i);
        }
        proof {
            if pat.len() == 0 {
                assert(hay@.subrange(i as int, i + pat.len()) =~= pat@);
            }
        }
        i = i + 1;
    }
    None
}

/// Whether `s` starts with `pre`.
pub fn starts_with_chars(s: &[char], pre: &[char]) -> (r: bool)
    ensures
        r == starts_with(s@, pre@),
{
    if pre.len() > s.len() {
        return false;
    }
    let r = crate::text::occurs_at_exec(s, pre, 0);
    proof {
        assert(s@.subrange(0, pre.len() as int) == s@.take(pre.len() as int));
    }
    r
}

/// `s[lo..hi]` as a vector.
pub fn slice_chars(s: &[char], lo: usize, hi: usize) -> (r: Vec<char>)
    requires
        lo <= hi <= s.len(),
    ensures
        r@ == s@.subrange(lo as int, hi as int),
{
    let mut r: Vec<char> = Vec::new();
    let mut k: usize = lo;
    while k < hi
        invariant
            lo <= k <= hi <= s.len(),
            r@ == s@.subrange(lo as int, k as int),
        decreases hi - k,
    {
        r.push(s[k]);
        k = k + 1;
    }
    r
}

/// The lines of `s` (`str::lines`).
pub fn split_lines(s: &[char]) -> (out: Vec<Vec<char>>)
    ensures
        out@.len() == lines(s@).len(),
        forall|k: int| 0 <= k < out@.len() ==> #[trigger] out@[k]@ == lines(s@)[k],
{
    let mut out: Vec<Vec<char>> = Vec::new();
    let ghost mut done: Seq<Seq<char>> = Seq::empty();
    let nl: [char; 1] = ['\n'];
    proof {
        assert(nl@ == seq!['\n']);
    }
    let mut pos: usize = 0;
    while pos < s.len()
        invariant
            pos <= s.len(),
            nl@ == seq!['\n'],
            lines(s@) == done + lines_from(s@, pos as int),
            out@.len() == done.len(),
            forall|k: int| 0 <= k < out@.len() ==> #[trigger] out@[k]@ == done[k],
        decreases s.len() - pos,
    {
        match find_chars(s, &nl, pos) {
            None => {
                let line = slice_chars(s, pos, s.len());
                proof {
                    assert(lines_from(s@, pos as int) == seq![s@.subrange(pos as int, s.len() as int)]);
                    assert(lines_from(s@, s.len() as int) == Seq::<Seq<char>>::empty());
                    done = done.push(line@);
                }
                out.push(line);
                pos = s.len();
                proof {
                    assert(lines(s@) == done + lines_from(s@, pos as int));
                }
            },
            Some(p) => {
                proof {
                    lemma_find_from(s@, seq!['\n'], pos as int);
                }
                let mut hi = p;
                if hi > pos && s[hi - 1] == '\r' {
                    hi = hi - 1;
                }
                let line = slice_chars(s, pos, hi);
                proof {
                    assert(line@ == drop_cr(s@.subrange(pos as int, p as int)));
                    assert(lines_from(s@, pos as int) == seq![line@] + lines_from(s@, p + 1));
                    assert(done + lines_from(s@, pos as int) == done.push(line@) + lines_from(
                        s@,
                        p + 1,
                    ));
                    done = done.push(line@);
                }
                out.push(line);
                pos = p + 1;
            },
        }
    }
    proof {
        assert(lines_from(s@, pos as int) == Seq::<Seq<char>>::empty());
        assert(done + Seq::<Seq<char>>::empty() == done);
    }
    out
}


/// The pieces of `s` between occurrences of `sep` (`str::split(sep)`):
/// one more than the number of separators.
pub open spec fn split_on(s: Seq<char>, sep: char) -> Seq<Seq<char>>
    decreases s.len(),
{
    if s.len() == 0 {
        seq![Seq::empty()]
    } else {
        let rest = split_on(s.drop_last(), sep);
        if s.last() == sep {
            rest.push(Seq::empty())
        } else {
            rest.update(rest.len() - 1, rest.last().push(s.last()))
        }
    }
}

/// `str::split(sep)` on characters.
pub fn split_on_char(s: &[char], sep: char) -> (out: Vec<Vec<char>>)
    ensures
        out@.len() == split_on(s@, sep).len(),
        forall|k: int| 0 <= k < out@.len() ==> #[trigger] out@[k]@ == split_on(s@, sep)[k],
{
    let mut out: Vec<Vec<char>> = Vec::new();
    let mut cur: Vec<char> = Vec::new();
    let ghost mut done: Seq<Seq<char>> = Seq::empty();
    let mut i: usize = 0;
    proof {
        assert(s@.take(0) == Seq::<char>::empty());
    }
    while i < s.len()
        invariant
            i <= s.len(),
            split_on(s@.take(i as int), sep) == done.push(cur@),
            out@.len() == done.len(),
            forall|k: int| 0 <= k < out@.len() ==> #[trigger] out@[k]@ == done[k],
        decreases s.len() - i,
    {
        let c = s[i];
        proof {
            assert(s@.take(i + 1).drop_last() == s@.take(i as int));
            assert(s@.take(i + 1).last() == c);
        }
        if c == sep {
            proof {
                done = done.push(cur@);
            }
            out.push(cur);
            cur = Vec::new();
        } else {
            proof {
                assert(done.push(cur@).update(done.len() as int, cur@.push(c)) == done.push(cur@.push(c)));
            }
            cur.push(c);
        }
        i = i + 1;
    }
    proof {
        assert(s@.take(s.len() as int) == s@);
        done = done.push(cur@);
    }
    out.push(cur);
    out
}
/// Appends the parts joined with `sep` between them (`slice::join`).
pub fn push_joined(s: &mut String, parts: &Vec<String>, sep: &str)
    ensures
        final(s)@ == old(s)@ + join(crate::text::views(parts@), sep@),
{
    let ghost start = s@;
    let ghost ps = crate::text::views(parts@);
    let mut k: usize = 0;
    proof {
        assert(ps.take(0) == Seq::<Seq<char>>::empty());
        assert(s@ == start + join(ps.take(0), sep@));
    }
    while k < parts.len()
        invariant
            k <= parts@.len(),
            ps == crate::text::views(parts@),
            s@ == start + join(ps.take(k as int), sep@),
        decreases parts.len() - k,
    {
        if k > 0 {
            crate::text::push_str(s, sep);
        }
        crate::text::push_str(s, parts[k].as_str());
        proof {
            let t = ps.take(k + 1);
            assert(t.drop_last() == ps.take(k as int));
            assert(t.last() == parts@[k as int]@);
            if k == 0 {
                assert(t == seq![parts@[0]@]);
            }
        }
        k = k + 1;
    }
    proof {
        assert(ps.take(parts.len() as int) == ps);
    }
}

} // verus!
