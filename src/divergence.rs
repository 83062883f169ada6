//! How far each local branch stands from the same branch on each remote,
//! read from `git rev-list --left-right --count <remote>/<branch>...<branch>`.

use vstd::prelude::*;

use crate::text::{
    chars_of, decimal, done_words, lemma_decimal_digits, lemma_parse_decimal, lemma_words_push_word,
    tail_word, parse_u32, parse_u32_range, push_all, push_decimal, push_str,
    span_texts, string_from, word_spans, words,
};

verus! {

/// The remote-tracking branch that a branch is compared with.
pub open spec fn tracking_name(remote: Seq<char>, branch: Seq<char>) -> Seq<char> {
    remote + "/"@ + branch
}

/// What is said of a branch that is `ahead` commits ahead of and `behind`
/// commits behind its counterpart `tracking`: nothing where both are zero.
pub open spec fn divergence_text(ahead: nat, behind: nat, tracking: Seq<char>) -> Option<
    Seq<char>,
> {
    if ahead == 0 && behind == 0 {
        None
    } else if ahead == 0 {
        Some(decimal(behind) + " commit(s) behind "@ + tracking)
    } else if behind == 0 {
        Some(decimal(ahead) + " commit(s) ahead of "@ + tracking)
    } else {
        Some(
            decimal(ahead) + " commit(s) ahead of, "@ + decimal(behind) + " commit(s) behind "@
                + tracking,
        )
    }
}

/// The two counts of `git rev-list --left-right --count`, as
/// `(behind, ahead)`: first the commits found only on the remote side, then
/// those found only on the local branch. None where the output does not start
/// with two numbers (an empty output: the remote has no such branch).
pub open spec fn rev_counts(out: Seq<char>) -> Option<(u32, u32)> {
    let w = words(out);
    if w.len() >= 2 && parse_u32(w[0]) is Some && parse_u32(w[1]) is Some {
        Some((parse_u32(w[0])->0, parse_u32(w[1])->0))
    } else {
        None
    }
}

/// The report line for one remote, indented by four spaces, or nothing.
pub open spec fn remote_line(remote: Seq<char>, branch: Seq<char>, out: Seq<char>) -> Seq<char> {
    match rev_counts(out) {
        None => seq![],
        Some(c) => match divergence_text(c.1 as nat, c.0 as nat, tracking_name(remote, branch)) {
            None => seq![],
            Some(t) => "    "@ + t + "\n"@,
        },
    }
}

/// The report lines of one branch, one remote after the other.
pub open spec fn remote_lines(branch: Seq<char>, remotes: Seq<Seq<char>>, outs: Seq<Seq<char>>) -> Seq<
    char,
> {
    Seq::new(remotes.len(), |j: int| remote_line(remotes[j], branch, outs[j])).flatten()
}

/// The block of one branch: its name indented by two spaces, then its lines;
/// nothing where no remote gives a line.
pub open spec fn branch_block(branch: Seq<char>, remotes: Seq<Seq<char>>, outs: Seq<Seq<char>>) -> Seq<
    char,
> {
    let body = remote_lines(branch, remotes, outs);
    if body.len() == 0 {
        seq![]
    } else {
        "  "@ + branch + "\n"@ + body
    }
}

fn push_divergence(out: &mut Vec<char>, ahead: u32, behind: u32, remote: &str, branch: &str)
    requires
        ahead != 0 || behind != 0,
    ensures
        final(out)@ == old(out)@ + final(out)@.skip(old(out)@.len() as int),
        divergence_text(ahead as nat, behind as nat, tracking_name(remote@, branch@)) == Some(
            final(out)@.skip(old(out)@.len() as int),
        ),
{
    let ghost start = out@;
    if ahead == 0 {
        push_decimal(out, behind);
        push_str(out, " commit(s) behind ");
    } else if behind == 0 {
        push_decimal(out, ahead);
        push_str(out, " commit(s) ahead of ");
    } else {
        push_decimal(out, ahead);
        push_str(out, " commit(s) ahead of, ");
        push_decimal(out, behind);
        push_str(out, " commit(s) behind ");
    }
    push_str(out, remote);
    push_str(out, "/");
    push_str(out, branch);
    let ghost added = out@.skip(start.len() as int);
    assert(out@ =~= start + added);
    assert(Some(added) == divergence_text(
        ahead as nat,
        behind as nat,
        tracking_name(remote@, branch@),
    )) by {
        let tr = tracking_name(remote@, branch@);
        if ahead == 0 {
            assert(added =~= decimal(behind as nat) + " commit(s) behind "@ + tr);
        } else if behind == 0 {
            assert(added =~= decimal(ahead as nat) + " commit(s) ahead of "@ + tr);
        } else {
            assert(added =~= decimal(ahead as nat) + " commit(s) ahead of, "@ + decimal(
                behind as nat,
            ) + " commit(s) behind "@ + tr);
        }
    }
}

/// What is said of a branch `ahead` commits ahead of and `behind` commits
/// behind `remote/branch`: nothing where the two are level.
pub fn divergence_line(ahead: u32, behind: u32, remote: &str, branch: &str) -> (r: Option<String>)
    ensures
        r is None <==> (ahead == 0 && behind == 0),
        match r {
            Some(s) => divergence_text(ahead as nat, behind as nat, tracking_name(remote@, branch@))
                == Some(s@),
            None => divergence_text(ahead as nat, behind as nat, tracking_name(remote@, branch@))
                is None,
        },
{
    if ahead == 0 && behind == 0 {
        return None;
    }
    let mut out: Vec<char> = Vec::new();
    push_divergence(&mut out, ahead, behind, remote, branch);
    assert(out@.skip(0) =~= out@);
    Some(string_from(&out))
}

/// The counts `(behind, ahead)` in the output of
/// `git rev-list --left-right --count`; None where it holds no two numbers.
pub fn rev_list_counts(out: &str) -> (r: Option<(u32, u32)>)
    ensures
        r == rev_counts(out@),
{
    let cs = chars_of(out);
    let spans = word_spans(&cs);
    let ghost w = words(cs@);
    assert(span_texts(cs@, spans@).len() == spans@.len());
    if spans.len() < 2 {
        return None;
    }
    let (a0, b0) = spans[0];
    let (a1, b1) = spans[1];
    assert(w[0] == cs@.subrange(a0 as int, b0 as int));
    assert(w[1] == cs@.subrange(a1 as int, b1 as int));
    let behind = parse_u32_range(&cs, a0, b0);
    let ahead = parse_u32_range(&cs, a1, b1);
    match (behind, ahead) {
        (Some(b), Some(a)) => Some((b, a)),
        _ => None,
    }
}

/// Appends the line for one remote, as `remote_line` says.
fn push_remote_line(out: &mut Vec<char>, remote: &str, branch: &str, rev_out: &str)
    ensures
        final(out)@ == old(out)@ + remote_line(remote@, branch@, rev_out@),
{
    match rev_list_counts(rev_out) {
        None => {
            assert(old(out)@ + seq![] =~= old(out)@);
        },
        Some((behind, ahead)) => {
            if ahead == 0 && behind == 0 {
                assert(old(out)@ + seq![] =~= old(out)@);
            } else {
                let ghost start = out@;
                push_str(out, "    ");
                let ghost mid = out@;
                push_divergence(out, ahead, behind, remote, branch);
                let ghost t = out@.skip(mid.len() as int);
                push_str(out, "\n");
                assert(out@ =~= start + ("    "@ + t + "\n"@));
            }
        },
    }
}

/// The divergence block of one branch, from the output of the comparison
/// with each remote (`outputs[j]` for `remotes[j]`): the branch name, then a
/// line for each remote that has the branch and stands apart from it.
pub fn remotes_diff(branch: &str, remotes: &Vec<String>, outputs: &Vec<String>) -> (r: String)
    requires
        remotes@.len() == outputs@.len(),
    ensures
        r@ == branch_block(branch@, remotes.deep_view(), outputs.deep_view()),
{
    let ghost rs = remotes.deep_view();
    let ghost os = outputs.deep_view();
    let ghost f = |j: int| remote_line(rs[j], branch@, os[j]);
    let mut body: Vec<char> = Vec::new();
    let mut j: usize = 0;
    while j < remotes.len()
        invariant
            remotes@.len() == outputs@.len(),
            rs == remotes.deep_view(),
            os == outputs.deep_view(),
            f == (|j: int| remote_line(rs[j], branch@, os[j])),
            j <= remotes@.len(),
            body@ == Seq::new(j as nat, f).flatten(),
        decreases remotes@.len() - j,
    {
        push_remote_line(&mut body, remotes[j].as_str(), branch, outputs[j].as_str());
        proof {
            let prev = Seq::new(j as nat, f);
            assert(Seq::new((j + 1) as nat, f) =~= prev.push(f(j as int)));
            prev.lemma_flatten_push(f(j as int));
        }
        j = j + 1;
    }
    assert(Seq::new(j as nat, f) =~= Seq::new(rs.len(), f));
    if body.len() == 0 {
        return String::new();
    }
    let mut out: Vec<char> = Vec::new();
    push_str(&mut out, "  ");
    push_str(&mut out, branch);
    push_str(&mut out, "\n");
    push_all(&mut out, &body);
    string_from(&out)
}

// ---------------------------------------------------------------------------
// The line of a branch, for any counts
// ---------------------------------------------------------------------------

/// What `git rev-list --left-right --count` prints for a branch `behind`
/// commits behind and `ahead` commits ahead of the remote side.
pub open spec fn counts_output(behind: nat, ahead: nat) -> Seq<char> {
    decimal(behind) + "\t"@ + decimal(ahead) + "\n"@
}

/// The line that a branch `ahead` commits ahead of and `behind` commits
/// behind `remote/branch` gets, with at least one of the two counts above
/// zero.
pub open spec fn expected_line(ahead: nat, behind: nat, remote: Seq<char>, branch: Seq<char>) -> Seq<
    char,
> {
    if ahead == 0 {
        decimal(behind) + " commit(s) behind "@ + remote + "/"@ + branch
    } else if behind == 0 {
        decimal(ahead) + " commit(s) ahead of "@ + remote + "/"@ + branch
    } else {
        decimal(ahead) + " commit(s) ahead of, "@ + decimal(behind) + " commit(s) behind "@ + remote
            + "/"@ + branch
    }
}

/// For any counts, the comparison of a branch with a remote reads back as
/// `(behind, ahead)`, and the branch's block holds nothing where both are
/// zero; otherwise the branch name, then one line: `N commit(s) behind` where
/// it is only behind, `N commit(s) ahead of` where it is only ahead, and both,
/// ahead first, where it is both.
pub proof fn lemma_block_for_counts(remote: Seq<char>, branch: Seq<char>, behind: u32, ahead: u32)
    ensures
        rev_counts(counts_output(behind as nat, ahead as nat)) == Some((behind, ahead)),
        branch_block(branch, seq![remote], seq![counts_output(behind as nat, ahead as nat)]) == if (
        behind == 0 && ahead == 0) {
            Seq::<char>::empty()
        } else {
            "  "@ + branch + "\n"@ + "    "@ + expected_line(
                ahead as nat,
                behind as nat,
                remote,
                branch,
            ) + "\n"@
        },
{
    reveal_strlit("\t");
    reveal_strlit("\n");
    reveal_strlit("    ");
    let d1 = decimal(behind as nat);
    let d2 = decimal(ahead as nat);
    lemma_decimal_digits(behind as nat);
    lemma_decimal_digits(ahead as nat);
    lemma_parse_decimal(behind);
    lemma_parse_decimal(ahead);
    let e = Seq::<char>::empty();
    assert(tail_word(e).len() == 0);
    assert(done_words(e) == Seq::<Seq<char>>::empty());
    lemma_words_push_word(e, d1, '\t');
    let s1 = e + d1 + seq!['\t'];
    assert(s1 =~= d1 + "\t"@);
    lemma_words_push_word(s1, d2, '\n');
    let out = counts_output(behind as nat, ahead as nat);
    assert(s1 + d2 + seq!['\n'] =~= out);
    assert(words(out) =~= seq![d1, d2]);
    assert(rev_counts(out) == Some((behind, ahead)));
    let f = |j: int| remote_line(seq![remote][j], branch, seq![out][j]);
    let each = Seq::new(1, f);
    each.lemma_flatten_one_element();
    assert(remote_lines(branch, seq![remote], seq![out]) == f(0));
    let tr = tracking_name(remote, branch);
    if !(behind == 0 && ahead == 0) {
        let t = divergence_text(ahead as nat, behind as nat, tr)->0;
        assert(t =~= expected_line(ahead as nat, behind as nat, remote, branch));
        assert(f(0) == "    "@ + t + "\n"@);
        assert(f(0).len() > 0);
        assert("  "@ + branch + "\n"@ + ("    "@ + t + "\n"@) =~= "  "@ + branch + "\n"@ + "    "@
            + t + "\n"@);
    }
}

} // verus!
