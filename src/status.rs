//! The local side of a repository: its working-tree status, its branches and
//! its remotes, read from what `git status -s`, `git branch` and `git remote`
//! print.

use vstd::prelude::*;

use crate::text::{
    chars_of, done_lines, is_ws, lemma_lines_no_newline, lemma_lines_push_line, lemma_trim_props,
    line_spans, lines, no_newline, push_range, push_str, span_texts, spans_within, string_from,
    string_of_range, tail_line, trim, trim_bounds,
};

verus! {

/// One reported entry of the working tree: trimmed and indented by two spaces.
pub open spec fn status_entry(l: Seq<char>) -> Seq<char> {
    "  "@ + trim(l) + "\n"@
}

/// The status part of a report: one entry for each line of `git status -s`.
pub open spec fn status_block(status_out: Seq<char>) -> Seq<char> {
    lines(status_out).map_values(|l: Seq<char>| status_entry(l)).flatten()
}

/// The name that a line of `git branch` gives: trimmed, and without the
/// marker `* ` of the branch that is checked out.
pub open spec fn branch_name(l: Seq<char>) -> Seq<char> {
    let t = trim(l);
    if t.len() >= 2 && t[0] == '*' && t[1] == ' ' {
        t.subrange(2, t.len() as int)
    } else {
        t
    }
}

/// The local branches, in the order in which `git branch` lists them.
pub open spec fn branch_names(branch_out: Seq<char>) -> Seq<Seq<char>> {
    lines(branch_out).map_values(|l: Seq<char>| branch_name(l))
}

/// The remotes, one for each line of `git remote`.
pub open spec fn remote_names(remote_out: Seq<char>) -> Seq<Seq<char>> {
    lines(remote_out)
}

/// The status part of a report, from the output of `git status -s`: one line
/// for each modified or untracked file.
pub fn repo_status(status_out: &str) -> (r: String)
    ensures
        r@ == status_block(status_out@),
{
    let cs = chars_of(status_out);
    let spans = line_spans(&cs);
    let ghost ls = lines(cs@);
    let mut out: Vec<char> = Vec::new();
    let mut k: usize = 0;
    while k < spans.len()
        invariant
            cs@ == status_out@,
            ls == lines(cs@),
            span_texts(cs@, spans@) == ls,
            spans_within(spans@, cs@.len() as int),
            k <= spans@.len(),
            out@ == ls.take(k as int).map_values(|l: Seq<char>| status_entry(l)).flatten(),
        decreases spans@.len() - k,
    {
        let (a, b) = spans[k];
        assert(ls[k as int] == cs@.subrange(a as int, b as int));
        let (x, y) = trim_bounds(&cs, a, b);
        push_str(&mut out, "  ");
        push_range(&mut out, &cs, x, y);
        push_str(&mut out, "\n");
        proof {
            let f = |l: Seq<char>| status_entry(l);
            let prev = ls.take(k as int).map_values(f);
            assert(ls.take(k + 1).map_values(f) =~= prev.push(f(ls[k as int])));
            prev.lemma_flatten_push(f(ls[k as int]));
        }
        k = k + 1;
    }
    assert(ls.take(k as int) =~= ls);
    string_from(&out)
}

/// The local branches named in the output of `git branch`.
pub fn branch_list(branch_out: &str) -> (r: Vec<String>)
    ensures
        r.deep_view() == branch_names(branch_out@),
{
    let cs = chars_of(branch_out);
    let spans = line_spans(&cs);
    let ghost ls = lines(cs@);
    let mut r: Vec<String> = Vec::new();
    let mut k: usize = 0;
    while k < spans.len()
        invariant
            cs@ == branch_out@,
            ls == lines(cs@),
            span_texts(cs@, spans@) == ls,
            spans_within(spans@, cs@.len() as int),
            k <= spans@.len(),
            r@.map_values(|s: String| s@) == ls.take(k as int).map_values(
                |l: Seq<char>| branch_name(l),
            ),
        decreases spans@.len() - k,
    {
        let (a, b) = spans[k];
        assert(ls[k as int] == cs@.subrange(a as int, b as int));
        let (x, y) = trim_bounds(&cs, a, b);
        let ghost t = cs@.subrange(x as int, y as int);
        let name = if y - x >= 2 && cs[x] == '*' && cs[x + 1] == ' ' {
            assert(t.subrange(2, t.len() as int) =~= cs@.subrange(x + 2, y as int));
            string_of_range(&cs, x + 2, y)
        } else {
            string_of_range(&cs, x, y)
        };
        let ghost prev = r@.map_values(|s: String| s@);
        r.push(name);
        assert(r@.map_values(|s: String| s@) =~= prev.push(name@));
        assert(r@.map_values(|s: String| s@) =~= ls.take(k + 1).map_values(
            |l: Seq<char>| branch_name(l),
        ));
        k = k + 1;
    }
    assert(ls.take(k as int) =~= ls);
    assert(r.deep_view() =~= r@.map_values(|s: String| s@));
    r
}

/// The remotes named in the output of `git remote`.
pub fn remote_list(remote_out: &str) -> (r: Vec<String>)
    ensures
        r.deep_view() == remote_names(remote_out@),
{
    let cs = chars_of(remote_out);
    let spans = line_spans(&cs);
    let ghost ls = lines(cs@);
    let mut r: Vec<String> = Vec::new();
    let mut k: usize = 0;
    while k < spans.len()
        invariant
            cs@ == remote_out@,
            ls == lines(cs@),
            span_texts(cs@, spans@) == ls,
            spans_within(spans@, cs@.len() as int),
            k <= spans@.len(),
            r@.map_values(|s: String| s@) == ls.take(k as int),
        decreases spans@.len() - k,
    {
        let (a, b) = spans[k];
        assert(ls[k as int] == cs@.subrange(a as int, b as int));
        let name = string_of_range(&cs, a, b);
        let ghost prev = r@.map_values(|s: String| s@);
        r.push(name);
        assert(r@.map_values(|s: String| s@) =~= prev.push(name@));
        assert(r@.map_values(|s: String| s@) =~= ls.take(k + 1));
        k = k + 1;
    }
    assert(ls.take(k as int) =~= ls);
    assert(r.deep_view() =~= r@.map_values(|s: String| s@));
    r
}

/// A status line as the report shows it, without its line feed.
pub open spec fn shown_entry(l: Seq<char>) -> Seq<char> {
    "  "@ + trim(l)
}

proof fn lemma_entries_lines(ls: Seq<Seq<char>>)
    requires
        forall|k: int| 0 <= k < ls.len() ==> no_newline(#[trigger] ls[k]),
    ensures
        done_lines(ls.map_values(|l: Seq<char>| status_entry(l)).flatten()) == ls.map_values(
            |l: Seq<char>| shown_entry(l),
        ),
        tail_line(ls.map_values(|l: Seq<char>| status_entry(l)).flatten()).len() == 0,
    decreases ls.len(),
{
    let f = |l: Seq<char>| status_entry(l);
    let g = |l: Seq<char>| shown_entry(l);
    if ls.len() == 0 {
        assert(ls.map_values(f) =~= Seq::<Seq<char>>::empty());
        assert(ls.map_values(g) =~= Seq::<Seq<char>>::empty());
        assert(Seq::<Seq<char>>::empty().flatten() =~= Seq::<char>::empty());
    } else {
        let init = ls.drop_last();
        let l = ls.last();
        lemma_entries_lines(init);
        assert(ls.map_values(f) =~= init.map_values(f).push(f(l)));
        assert(ls.map_values(g) =~= init.map_values(g).push(g(l)));
        init.map_values(f).lemma_flatten_push(f(l));
        let prefix = init.map_values(f).flatten();
        let x = shown_entry(l);
        reveal_strlit("  ");
        reveal_strlit("\n");
        lemma_trim_props(l);
        assert(no_newline(x)) by {
            assert forall|i: int| 0 <= i < x.len() implies x[i] != '\n' by {
                if i >= 2 {
                    assert(x[i] == trim(l)[i - 2]);
                }
            }
        }
        assert(x.last() != '\r') by {
            if trim(l).len() > 0 {
                assert(x.last() == trim(l).last());
                assert(!is_ws(trim(l).last()));
            }
        }
        assert(f(l) =~= x + seq!['\n']);
        assert(prefix + f(l) =~= prefix + x + seq!['\n']);
        lemma_lines_push_line(prefix, x);
    }
}

/// Each line that `git status -s` prints becomes exactly one line of the
/// status part of the report: the same line, trimmed and indented by two
/// spaces.
pub proof fn lemma_status_lines(status_out: Seq<char>)
    ensures
        lines(status_block(status_out)) == lines(status_out).map_values(
            |l: Seq<char>| shown_entry(l),
        ),
        lines(status_block(status_out)).len() == lines(status_out).len(),
{
    lemma_lines_no_newline(status_out);
    lemma_entries_lines(lines(status_out));
}

} // verus!
