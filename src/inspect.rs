//! The inspection of one repository: the report that combines its working-tree
//! status with the divergence of each branch from each remote, and the steps
//! that gather what the report needs from `git`.
//!
//! `Inspection` decides which `git` command runs next and what its output
//! means; running the command is left to the caller, which hands the output
//! back with `record`.

use vstd::prelude::*;

use crate::divergence::{branch_block, remote_line, remote_lines, remotes_diff, rev_counts};
use crate::schedule::{finish_spec, outcome_spec, FinishView};
use crate::status::{
    branch_list, branch_names, lemma_status_lines, remote_list, remote_names, repo_status,
    shown_entry, status_block, status_entry,
};
use crate::text::{lines, push_all, push_str, string_from};

verus! {

/// The divergence part of a report: the block of each branch in turn, where
/// `counts[i][j]` is the comparison of branch `i` with remote `j`.
pub open spec fn divergence_part(
    branches: Seq<Seq<char>>,
    remotes: Seq<Seq<char>>,
    counts: Seq<Seq<Seq<char>>>,
) -> Seq<char> {
    Seq::new(branches.len(), |i: int| branch_block(branches[i], remotes, counts[i])).flatten()
}

/// The report of one repository: empty where it has no branch, or where its
/// working tree is clean and no branch stands apart from a remote; otherwise
/// the repository's path on a line of its own, the status entries, then the
/// divergence blocks.
pub open spec fn report_text(
    repo: Seq<char>,
    status_out: Seq<char>,
    branches: Seq<Seq<char>>,
    remotes: Seq<Seq<char>>,
    counts: Seq<Seq<Seq<char>>>,
) -> Seq<char> {
    let body = status_block(status_out) + divergence_part(branches, remotes, counts);
    if branches.len() == 0 || body.len() == 0 {
        seq![]
    } else {
        repo + "\n"@ + body
    }
}

/// `counts` holds one comparison for each branch and each remote.
pub open spec fn counts_complete(counts: Seq<Seq<Seq<char>>>, n_branches: int, n_remotes: int) -> bool {
    &&& counts.len() == n_branches
    &&& forall|i: int| 0 <= i < counts.len() ==> (#[trigger] counts[i]).len() == n_remotes
}

/// The report of `repo`, from the output of `git status -s`, the branches, the
/// remotes, and the comparison `counts[i][j]` of branch `i` with remote `j`.
pub fn inspect_report(
    repo: &str,
    status_out: &str,
    branches: &Vec<String>,
    remotes: &Vec<String>,
    counts: &Vec<Vec<String>>,
) -> (r: String)
    requires
        counts_complete(counts.deep_view(), branches@.len() as int, remotes@.len() as int),
    ensures
        r@ == report_text(
            repo@,
            status_out@,
            branches.deep_view(),
            remotes.deep_view(),
            counts.deep_view(),
        ),
{
    let ghost bs = branches.deep_view();
    let ghost rs = remotes.deep_view();
    let ghost cs = counts.deep_view();
    if branches.len() == 0 {
        return String::new();
    }
    let status = repo_status(status_out);
    let mut body: Vec<char> = Vec::new();
    push_str(&mut body, status.as_str());
    let ghost f = |i: int| branch_block(bs[i], rs, cs[i]);
    let mut i: usize = 0;
    while i < branches.len()
        invariant
            bs == branches.deep_view(),
            rs == remotes.deep_view(),
            cs == counts.deep_view(),
            counts_complete(cs, bs.len() as int, rs.len() as int),
            f == (|i: int| branch_block(bs[i], rs, cs[i])),
            i <= bs.len(),
            body@ == status_block(status_out@) + Seq::new(i as nat, f).flatten(),
        decreases bs.len() - i,
    {
        assert(counts[i as int].deep_view() == cs[i as int]);
        let block = remotes_diff(branches[i].as_str(), remotes, &counts[i]);
        push_str(&mut body, block.as_str());
        proof {
            let prev = Seq::new(i as nat, f);
            assert(Seq::new((i + 1) as nat, f) =~= prev.push(f(i as int)));
            prev.lemma_flatten_push(f(i as int));
            assert(body@ =~= status_block(status_out@) + Seq::new((i + 1) as nat, f).flatten());
        }
        i = i + 1;
    }
    assert(Seq::new(i as nat, f) =~= Seq::new(bs.len(), f));
    if body.len() == 0 {
        return String::new();
    }
    let mut out: Vec<char> = Vec::new();
    push_str(&mut out, repo);
    push_str(&mut out, "\n");
    push_all(&mut out, &body);
    string_from(&out)
}

// ---------------------------------------------------------------------------
// The steps of an inspection
// ---------------------------------------------------------------------------

/// A `git` command that an inspection asks to run in the repository.
pub enum GitQuery {
    /// `git status -s`
    Status,
    /// `git branch`
    Branches,
    /// `git remote`
    Remotes,
    /// `git fetch <remote>`, best effort: its outcome is not read
    Fetch { remote: String },
    /// `git rev-list --left-right --count <remote>/<branch>...<branch>`
    Counts { remote: String, branch: String },
}

pub enum QueryView {
    Status,
    Branches,
    Remotes,
    Fetch(Seq<char>),
    Counts(Seq<char>, Seq<char>),
}

impl View for GitQuery {
    type V = QueryView;

    open spec fn view(&self) -> QueryView {
        match self {
            GitQuery::Status => QueryView::Status,
            GitQuery::Branches => QueryView::Branches,
            GitQuery::Remotes => QueryView::Remotes,
            GitQuery::Fetch { remote } => QueryView::Fetch(remote@),
            GitQuery::Counts { remote, branch } => QueryView::Counts(remote@, branch@),
        }
    }
}

/// What an inspection wants next: a command run, or nothing more, with its
/// report.
pub enum InspectStep {
    Run(GitQuery),
    Report(String),
}

pub enum StepView {
    Run(QueryView),
    Report(Seq<char>),
}

impl View for InspectStep {
    type V = StepView;

    open spec fn view(&self) -> StepView {
        match self {
            InspectStep::Run(q) => StepView::Run(q@),
            InspectStep::Report(s) => StepView::Report(s@),
        }
    }
}

/// What an inspection has learnt so far.
pub struct InspectionView {
    pub repo: Seq<char>,
    pub status_out: Option<Seq<char>>,
    pub branches: Option<Seq<Seq<char>>>,
    pub remotes: Option<Seq<Seq<char>>>,
    pub fetched: nat,
    /// the comparisons of the branches whose every remote has been compared
    pub counts: Seq<Seq<Seq<char>>>,
    /// the comparisons of the next branch so far
    pub row: Seq<Seq<char>>,
}

/// The states that the steps of an inspection go through.
pub open spec fn well_formed(v: InspectionView) -> bool {
    &&& v.status_out is None ==> v.branches is None
    &&& v.branches is None ==> v.remotes is None
    &&& v.remotes is None ==> v.fetched == 0 && v.counts.len() == 0 && v.row.len() == 0
    &&& (v.branches is Some && v.branches->0.len() == 0) ==> v.remotes is None
    &&& v.remotes is Some ==> {
        let bs = v.branches->0;
        let rs = v.remotes->0;
        &&& v.fetched <= rs.len()
        &&& v.fetched < rs.len() ==> v.counts.len() == 0 && v.row.len() == 0
        &&& v.counts.len() <= bs.len()
        &&& v.counts.len() < bs.len() ==> v.row.len() < rs.len()
        &&& v.counts.len() == bs.len() ==> v.row.len() == 0
        &&& forall|i: int| 0 <= i < v.counts.len() ==> (#[trigger] v.counts[i]).len() == rs.len()
    }
}

/// The next step of an inspection: the status first, then the branches
/// (a repository without branches has nothing more to report), the remotes,
/// a fetch from each remote, and the comparison of each branch with each
/// remote; then the report.
pub open spec fn step_of(v: InspectionView) -> StepView {
    match v.status_out {
        None => StepView::Run(QueryView::Status),
        Some(st) => match v.branches {
            None => StepView::Run(QueryView::Branches),
            Some(bs) => if bs.len() == 0 {
                StepView::Report(seq![])
            } else {
                match v.remotes {
                    None => StepView::Run(QueryView::Remotes),
                    Some(rs) => if v.fetched < rs.len() {
                        StepView::Run(QueryView::Fetch(rs[v.fetched as int]))
                    } else if v.counts.len() < bs.len() {
                        StepView::Run(QueryView::Counts(rs[v.row.len() as int], bs[v.counts.len() as int]))
                    } else {
                        StepView::Report(report_text(v.repo, st, bs, rs, v.counts))
                    },
                }
            },
        },
    }
}

/// What an inspection knows after the command of its next step printed `out`.
pub open spec fn after_output(v: InspectionView, out: Seq<char>) -> InspectionView {
    match step_of(v) {
        StepView::Run(QueryView::Status) => InspectionView { status_out: Some(out), ..v },
        StepView::Run(QueryView::Branches) => InspectionView {
            branches: Some(branch_names(out)),
            ..v
        },
        StepView::Run(QueryView::Remotes) => {
            let rs = remote_names(out);
            if rs.len() == 0 {
                InspectionView {
                    remotes: Some(rs),
                    counts: Seq::new(v.branches->0.len(), |i: int| Seq::<Seq<char>>::empty()),
                    ..v
                }
            } else {
                InspectionView { remotes: Some(rs), ..v }
            }
        },
        StepView::Run(QueryView::Fetch(_)) => InspectionView { fetched: v.fetched + 1, ..v },
        StepView::Run(QueryView::Counts(_, _)) => {
            let row = v.row.push(out);
            if row.len() == v.remotes->0.len() {
                InspectionView { counts: v.counts.push(row), row: seq![], ..v }
            } else {
                InspectionView { row, ..v }
            }
        },
        StepView::Report(_) => v,
    }
}

/// The inspection of one repository, step by step.
pub struct Inspection {
    repo: String,
    status_out: Option<String>,
    branches: Option<Vec<String>>,
    remotes: Option<Vec<String>>,
    fetched: usize,
    counts: Vec<Vec<String>>,
    row: Vec<String>,
}

impl View for Inspection {
    type V = InspectionView;

    closed spec fn view(&self) -> InspectionView {
        InspectionView {
            repo: self.repo@,
            status_out: self.status_out.deep_view(),
            branches: self.branches.deep_view(),
            remotes: self.remotes.deep_view(),
            fetched: self.fetched as nat,
            counts: self.counts.deep_view(),
            row: self.row.deep_view(),
        }
    }
}

impl Inspection {
    /// An inspection of `repo` that has learnt nothing yet.
    pub fn new(repo: String) -> (r: Inspection)
        ensures
            r@ == (InspectionView {
                repo: repo@,
                status_out: None,
                branches: None,
                remotes: None,
                fetched: 0,
                counts: seq![],
                row: seq![],
            }),
            well_formed(r@),
    {
        let r = Inspection {
            repo,
            status_out: None,
            branches: None,
            remotes: None,
            fetched: 0,
            counts: Vec::new(),
            row: Vec::new(),
        };
        assert(r.counts.deep_view() =~= seq![]);
        assert(r.row.deep_view() =~= seq![]);
        r
    }

    /// What to do next: run a command, or take the report.
    pub fn next_step(&self) -> (r: InspectStep)
        requires
            well_formed(self@),
        ensures
            r@ == step_of(self@),
    {
        let st = match &self.status_out {
            None => {
                return InspectStep::Run(GitQuery::Status);
            },
            Some(st) => st,
        };
        let bs = match &self.branches {
            None => {
                return InspectStep::Run(GitQuery::Branches);
            },
            Some(bs) => bs,
        };
        if bs.len() == 0 {
            return InspectStep::Report(String::new());
        }
        let rs = match &self.remotes {
            None => {
                return InspectStep::Run(GitQuery::Remotes);
            },
            Some(rs) => rs,
        };
        if self.fetched < rs.len() {
            let remote = rs[self.fetched].clone();
            return InspectStep::Run(GitQuery::Fetch { remote });
        }
        if self.counts.len() < bs.len() {
            let remote = rs[self.row.len()].clone();
            let branch = bs[self.counts.len()].clone();
            return InspectStep::Run(GitQuery::Counts { remote, branch });
        }
        InspectStep::Report(inspect_report(self.repo.as_str(), st.as_str(), bs, rs, &self.counts))
    }

    /// Takes in what the command of the next step printed (for a fetch, its
    /// output is not read).
    pub fn record(&mut self, out: &str)
        requires
            well_formed(old(self)@),
            step_of(old(self)@) is Run,
        ensures
            final(self)@ == after_output(old(self)@, out@),
            well_formed(final(self)@),
    {
        if self.status_out.is_none() {
            self.status_out = Some(out.to_owned());
            return;
        }
        let nb = match &self.branches {
            None => {
                self.branches = Some(branch_list(out));
                return;
            },
            Some(bs) => bs.len(),
        };
        let nr = match &self.remotes {
            None => {
                let rs = remote_list(out);
                if rs.len() == 0 {
                    let mut i: usize = 0;
                    while i < nb
                        invariant
                            i <= nb,
                            self.repo == old(self).repo,
                            self.status_out == old(self).status_out,
                            self.branches == old(self).branches,
                            self.remotes == old(self).remotes,
                            self.fetched == old(self).fetched,
                            self.row == old(self).row,
                            old(self).counts@.len() == 0,
                            self.counts.deep_view() =~= Seq::new(
                                i as nat,
                                |k: int| Seq::<Seq<char>>::empty(),
                            ),
                        decreases nb - i,
                    {
                        let ghost prev = self.counts.deep_view();
                        let empty: Vec<String> = Vec::new();
                        self.counts.push(empty);
                        assert(empty.deep_view() =~= Seq::<Seq<char>>::empty());
                        assert(self.counts.deep_view() =~= prev.push(Seq::<Seq<char>>::empty()));
                        i = i + 1;
                    }
                }
                self.remotes = Some(rs);
                return;
            },
            Some(rs) => rs.len(),
        };
        if self.fetched < nr {
            self.fetched = self.fetched + 1;
            return;
        }
        let ghost prev_row = self.row.deep_view();
        self.row.push(out.to_owned());
        assert(self.row.deep_view() =~= prev_row.push(out@));
        if self.row.len() == nr {
            let ghost prev_counts = self.counts.deep_view();
            let mut full: Vec<String> = Vec::new();
            std::mem::swap(&mut full, &mut self.row);
            self.counts.push(full);
            assert(self.counts.deep_view() =~= prev_counts.push(full.deep_view()));
            assert(self.row.deep_view() =~= seq![]);
        }
    }
}

// ---------------------------------------------------------------------------
// Laws of the report
// ---------------------------------------------------------------------------

/// The working tree is clean: `git status -s` printed no line.
pub open spec fn clean_tree(status_out: Seq<char>) -> bool {
    lines(status_out).len() == 0
}

/// No branch stands apart from a remote: each comparison finds the remote
/// without the branch, or both counts zero.
pub open spec fn level_with_remotes(counts: Seq<Seq<Seq<char>>>, n_branches: int, n_remotes: int) -> bool {
    forall|i: int, j: int|
        0 <= i < n_branches && 0 <= j < n_remotes ==> match #[trigger] rev_counts(counts[i][j]) {
            None => true,
            Some(c) => c.0 == 0 && c.1 == 0,
        }
}

proof fn lemma_flatten_of_empties(s: Seq<Seq<char>>)
    requires
        forall|i: int| 0 <= i < s.len() ==> (#[trigger] s[i]).len() == 0,
    ensures
        s.flatten().len() == 0,
    decreases s.len(),
{
    if s.len() > 0 {
        assert(s.drop_first().len() == s.len() - 1);
        assert forall|i: int| 0 <= i < s.drop_first().len() implies (
        #[trigger] s.drop_first()[i]).len() == 0 by {
            assert(s.drop_first()[i] == s[i + 1]);
        }
        lemma_flatten_of_empties(s.drop_first());
    }
}

/// A repository with a clean working tree whose branches all stand level with
/// their remotes gets an empty report, and its progress line is cleared
/// without printing anything.
pub proof fn lemma_clean_repository_is_silent(
    repo: Seq<char>,
    status_out: Seq<char>,
    branches: Seq<Seq<char>>,
    remotes: Seq<Seq<char>>,
    counts: Seq<Seq<Seq<char>>>,
)
    requires
        clean_tree(status_out),
        counts_complete(counts, branches.len() as int, remotes.len() as int),
        level_with_remotes(counts, branches.len() as int, remotes.len() as int),
    ensures
        report_text(repo, status_out, branches, remotes, counts) == Seq::<char>::empty(),
        finish_spec(outcome_spec(Ok(report_text(repo, status_out, branches, remotes, counts))))
            == FinishView::Clear,
{
    let ls = lines(status_out);
    assert(ls.map_values(|l: Seq<char>| status_entry(l)) =~= Seq::<Seq<char>>::empty());
    assert(Seq::<Seq<char>>::empty().flatten() =~= Seq::<char>::empty());
    let blocks = Seq::new(
        branches.len(),
        |i: int| branch_block(branches[i], remotes, counts[i]),
    );
    assert forall|i: int| 0 <= i < blocks.len() implies (#[trigger] blocks[i]).len() == 0 by {
        let each = Seq::new(
            remotes.len(),
            |j: int| remote_line(remotes[j], branches[i], counts[i][j]),
        );
        assert forall|j: int| 0 <= j < each.len() implies (#[trigger] each[j]).len() == 0 by {
            assert(match rev_counts(counts[i][j]) {
                None => true,
                Some(c) => c.0 == 0 && c.1 == 0,
            });
        }
        lemma_flatten_of_empties(each);
        assert(remote_lines(branches[i], remotes, counts[i]) == each.flatten());
    }
    lemma_flatten_of_empties(blocks);
    let body = status_block(status_out) + divergence_part(branches, remotes, counts);
    assert(body.len() == 0);
}

/// Checking a repository again with nothing changed in it or on its remotes
/// gives the same report, byte for byte; for a clean repository level with
/// its remotes both reports are empty.
pub proof fn lemma_recheck_gives_same_report(
    repo: Seq<char>,
    status_out: Seq<char>,
    branches: Seq<Seq<char>>,
    remotes: Seq<Seq<char>>,
    counts: Seq<Seq<Seq<char>>>,
    status_again: Seq<char>,
    branches_again: Seq<Seq<char>>,
    remotes_again: Seq<Seq<char>>,
    counts_again: Seq<Seq<Seq<char>>>,
)
    requires
        status_again == status_out,
        branches_again == branches,
        remotes_again == remotes,
        counts_again == counts,
        counts_complete(counts, branches.len() as int, remotes.len() as int),
    ensures
        report_text(repo, status_again, branches_again, remotes_again, counts_again)
            == report_text(repo, status_out, branches, remotes, counts),
        clean_tree(status_out) && level_with_remotes(
            counts,
            branches.len() as int,
            remotes.len() as int,
        ) ==> report_text(repo, status_again, branches_again, remotes_again, counts_again)
            == Seq::<char>::empty() && report_text(repo, status_out, branches, remotes, counts)
            == Seq::<char>::empty(),
{
    if clean_tree(status_out) && level_with_remotes(
        counts,
        branches.len() as int,
        remotes.len() as int,
    ) {
        lemma_clean_repository_is_silent(repo, status_out, branches, remotes, counts);
    }
}

/// A repository with branches and with changes in its working tree is
/// reported under its path, and each line of `git status -s` becomes exactly
/// one line of the report, trimmed and indented by two spaces, before the
/// divergence blocks.
pub proof fn lemma_changes_are_listed(
    repo: Seq<char>,
    status_out: Seq<char>,
    branches: Seq<Seq<char>>,
    remotes: Seq<Seq<char>>,
    counts: Seq<Seq<Seq<char>>>,
)
    requires
        branches.len() > 0,
        !clean_tree(status_out),
    ensures
        report_text(repo, status_out, branches, remotes, counts) == repo + "\n"@ + status_block(
            status_out,
        ) + divergence_part(branches, remotes, counts),
        lines(status_block(status_out)) == lines(status_out).map_values(
            |l: Seq<char>| shown_entry(l),
        ),
{
    lemma_status_lines(status_out);
    let sb = status_block(status_out);
    assert(lines(sb).len() > 0);
    if sb.len() == 0 {
        assert(lines(Seq::<char>::empty()).len() == 0);
        assert(sb =~= Seq::<char>::empty());
    }
    assert(repo + "\n"@ + (sb + divergence_part(branches, remotes, counts)) =~= repo + "\n"@ + sb
        + divergence_part(branches, remotes, counts));
}

} // verus!
