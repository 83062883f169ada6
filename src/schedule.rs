//! The bookkeeping of a check over many repositories: one task for each
//! repository, run side by side, each ending with an outcome that decides how
//! its progress line ends; the check ends when every task has settled.

use vstd::prelude::*;

use crate::text::{push_str, string_from};

verus! {

/// The name that tags the errors the application prints.
pub const APP_NAME: &'static str = "git-conform";

/// An error line, tagged with the application's name.
pub open spec fn tagged(e: Seq<char>) -> Seq<char> {
    APP_NAME@ + ": "@ + e
}

/// The error `e` tagged with the application's name.
pub fn error_line(e: &str) -> (r: String)
    ensures
        r@ == tagged(e@),
{
    let mut out: Vec<char> = Vec::new();
    push_str(&mut out, APP_NAME);
    push_str(&mut out, ": ");
    push_str(&mut out, e);
    string_from(&out)
}

/// How the outcome of one repository's task shows.
pub enum TaskOutcome {
    /// inspected, nothing to report
    Clean,
    /// inspected, with this report
    Reported(String),
    /// the inspection failed with this error
    Failed(String),
    /// the task itself did not complete (it panicked or was cancelled)
    Crashed(String),
}

pub enum OutcomeView {
    Clean,
    Reported(Seq<char>),
    Failed(Seq<char>),
    Crashed(Seq<char>),
}

impl View for TaskOutcome {
    type V = OutcomeView;

    open spec fn view(&self) -> OutcomeView {
        match self {
            TaskOutcome::Clean => OutcomeView::Clean,
            TaskOutcome::Reported(s) => OutcomeView::Reported(s@),
            TaskOutcome::Failed(s) => OutcomeView::Failed(s@),
            TaskOutcome::Crashed(s) => OutcomeView::Crashed(s@),
        }
    }
}

/// The outcome of an inspection that returned `result`.
pub open spec fn outcome_spec(result: Result<Seq<char>, Seq<char>>) -> OutcomeView {
    match result {
        Ok(report) => if report.len() == 0 {
            OutcomeView::Clean
        } else {
            OutcomeView::Reported(report)
        },
        Err(e) => OutcomeView::Failed(e),
    }
}

/// The outcome of an inspection: clean where the report is empty.
pub fn outcome_of(result: Result<String, String>) -> (r: TaskOutcome)
    ensures
        r@ == outcome_spec(
            match result {
                Ok(s) => Ok(s@),
                Err(e) => Err(e@),
            },
        ),
{
    match result {
        Ok(report) => if report.as_str().is_empty() {
            TaskOutcome::Clean
        } else {
            TaskOutcome::Reported(report)
        },
        Err(e) => TaskOutcome::Failed(e),
    }
}

/// How a task's progress line ends: it is cleared, or replaced by a message.
pub enum Finish {
    Clear,
    Message(String),
}

pub enum FinishView {
    Clear,
    Message(Seq<char>),
}

impl View for Finish {
    type V = FinishView;

    open spec fn view(&self) -> FinishView {
        match self {
            Finish::Clear => FinishView::Clear,
            Finish::Message(s) => FinishView::Message(s@),
        }
    }
}

/// A clean repository leaves nothing on the screen; a report is printed as
/// it is; an error is printed tagged with the application's name.
pub open spec fn finish_spec(o: OutcomeView) -> FinishView {
    match o {
        OutcomeView::Clean => FinishView::Clear,
        OutcomeView::Reported(r) => FinishView::Message(r),
        OutcomeView::Failed(e) => FinishView::Message(tagged(e)),
        OutcomeView::Crashed(e) => FinishView::Message(tagged(e)),
    }
}

/// How the progress line of a task with outcome `o` ends.
pub fn finish_of(o: &TaskOutcome) -> (r: Finish)
    ensures
        r@ == finish_spec(o@),
{
    match o {
        TaskOutcome::Clean => Finish::Clear,
        TaskOutcome::Reported(report) => Finish::Message(report.clone()),
        TaskOutcome::Failed(e) => Finish::Message(error_line(e.as_str())),
        TaskOutcome::Crashed(e) => Finish::Message(error_line(e.as_str())),
    }
}

/// The number of settled tasks among `slots`.
pub open spec fn settled_count(slots: Seq<Option<OutcomeView>>) -> nat
    decreases slots.len(),
{
    if slots.len() == 0 {
        0
    } else {
        settled_count(slots.drop_last()) + if slots.last() is Some {
            1nat
        } else {
            0nat
        }
    }
}

/// Every task has settled.
pub open spec fn all_settled(slots: Seq<Option<OutcomeView>>) -> bool {
    forall|i: int| 0 <= i < slots.len() ==> (#[trigger] slots[i]) is Some
}

/// The index of the first crashed task among the first `n` slots, if any.
pub open spec fn first_crash(slots: Seq<Option<OutcomeView>>, n: int) -> Option<int>
    decreases n,
{
    if n <= 0 {
        None
    } else {
        match first_crash(slots, n - 1) {
            Some(i) => Some(i),
            None => if slots[n - 1] matches Some(OutcomeView::Crashed(_)) {
                Some(n - 1)
            } else {
                None
            },
        }
    }
}

/// What a finished check returns: the error of the first task, in the order
/// of the repositories, that did not complete; errors of inspections are only
/// shown, not returned.
pub open spec fn check_result(slots: Seq<Option<OutcomeView>>) -> Result<(), Seq<char>> {
    match first_crash(slots, slots.len() as int) {
        Some(i) => Err(slots[i]->0->Crashed_0),
        None => Ok(()),
    }
}

/// The slots of `k` tasks, none settled.
pub open spec fn unsettled(k: nat) -> Seq<Option<OutcomeView>> {
    Seq::new(k, |i: int| None::<OutcomeView>)
}

/// The tasks of one check, each with its outcome once it has settled.
pub struct CheckRun {
    slots: Vec<Option<TaskOutcome>>,
}

impl View for CheckRun {
    type V = Seq<Option<OutcomeView>>;

    closed spec fn view(&self) -> Seq<Option<OutcomeView>> {
        self.slots@.map_values(
            |o: Option<TaskOutcome>|
                match o {
                    Some(t) => Some(t@),
                    None => None,
                },
        )
    }
}

impl CheckRun {
    /// A check of `k` repositories, none settled yet.
    pub fn new(k: usize) -> (r: CheckRun)
        ensures
            r@ == unsettled(k as nat),
    {
        let mut slots: Vec<Option<TaskOutcome>> = Vec::new();
        let mut i: usize = 0;
        while i < k
            invariant
                i <= k,
                slots@.len() == i,
                forall|j: int| 0 <= j < i ==> (#[trigger] slots@[j]) is None,
            decreases k - i,
        {
            slots.push(None);
            i = i + 1;
        }
        let r = CheckRun { slots };
        assert(r@ =~= unsettled(k as nat));
        r
    }

    /// The number of repositories under check.
    pub fn len(&self) -> (r: usize)
        ensures
            r == self@.len(),
    {
        self.slots.len()
    }

    /// Records the outcome of task `i`, which had not settled.
    pub fn settle(&mut self, i: usize, outcome: TaskOutcome)
        requires
            i < old(self)@.len(),
            old(self)@[i as int] is None,
        ensures
            final(self)@ == old(self)@.update(i as int, Some(outcome@)),
    {
        self.slots.set(i, Some(outcome));
        assert(self@ =~= old(self)@.update(i as int, Some(outcome@)));
    }

    /// Whether task `i` has settled.
    pub fn is_settled(&self, i: usize) -> (r: bool)
        requires
            i < self@.len(),
        ensures
            r == self@[i as int] is Some,
    {
        self.slots[i].is_some()
    }

    /// The number of settled tasks.
    pub fn settled(&self) -> (r: usize)
        ensures
            r == settled_count(self@),
    {
        let mut n: usize = 0;
        let mut i: usize = 0;
        while i < self.slots.len()
            invariant
                i <= self@.len(),
                self@.len() == self.slots@.len(),
                n == settled_count(self@.take(i as int)),
                n <= i,
            decreases self.slots@.len() - i,
        {
            assert(self@.take(i + 1).drop_last() =~= self@.take(i as int));
            if self.slots[i].is_some() {
                n = n + 1;
            }
            i = i + 1;
        }
        assert(self@.take(i as int) =~= self@);
        n
    }

    /// Whether every task has settled.
    pub fn is_complete(&self) -> (r: bool)
        ensures
            r == all_settled(self@),
    {
        let mut i: usize = 0;
        while i < self.slots.len()
            invariant
                i <= self@.len(),
                self@.len() == self.slots@.len(),
                forall|j: int| 0 <= j < i ==> (#[trigger] self@[j]) is Some,
            decreases self.slots@.len() - i,
        {
            if self.slots[i].is_none() {
                assert(self@[i as int] is None);
                return false;
            }
            i = i + 1;
        }
        true
    }

    /// The result of the check, once every task has settled.
    pub fn result(&self) -> (r: Result<(), String>)
        requires
            all_settled(self@),
        ensures
            match r {
                Ok(()) => check_result(self@) is Ok,
                Err(e) => check_result(self@) == Err::<(), Seq<char>>(e@),
            },
    {
        let mut i: usize = 0;
        while i < self.slots.len()
            invariant
                i <= self@.len(),
                self@.len() == self.slots@.len(),
                first_crash(self@, i as int) is None,
            decreases self.slots@.len() - i,
        {
            match &self.slots[i] {
                Some(TaskOutcome::Crashed(e)) => {
                    assert(first_crash(self@, i + 1) == Some(i as int));
                    proof {
                        lemma_first_crash_stays(self@, i + 1, self@.len() as int);
                    }
                    return Err(e.clone());
                },
                _ => {},
            }
            i = i + 1;
        }
        Ok(())
    }
}

proof fn lemma_first_crash_stays(slots: Seq<Option<OutcomeView>>, n: int, m: int)
    requires
        0 <= n <= m,
        first_crash(slots, n) is Some,
    ensures
        first_crash(slots, m) == first_crash(slots, n),
    decreases m - n,
{
    if m > n {
        lemma_first_crash_stays(slots, n, m - 1);
    }
}

// ---------------------------------------------------------------------------
// Every task settles once
// ---------------------------------------------------------------------------

/// The slots after the tasks `order[0], order[1], ...` settle in turn, task
/// `order[t]` with outcome `outs[t]`.
pub open spec fn settle_in_order(
    slots: Seq<Option<OutcomeView>>,
    order: Seq<int>,
    outs: Seq<OutcomeView>,
) -> Seq<Option<OutcomeView>>
    decreases order.len(),
{
    if order.len() == 0 {
        slots
    } else {
        settle_in_order(slots, order.drop_last(), outs.drop_last()).update(
            order.last(),
            Some(outs[order.len() - 1]),
        )
    }
}

/// `order` names each of the `k` tasks exactly once: an order in which they
/// can complete.
pub open spec fn is_completion_order(order: Seq<int>, k: nat) -> bool {
    &&& order.len() == k
    &&& forall|t: int| 0 <= t < k ==> 0 <= #[trigger] order[t] < k
    &&& forall|t: int, u: int| 0 <= t < u < k ==> #[trigger] order[t] != #[trigger] order[u]
    &&& forall|i: int| 0 <= i < k ==> #[trigger] named_in(order, i)
}

/// Task `i` is named somewhere in `order`.
pub open spec fn named_in(order: Seq<int>, i: int) -> bool {
    exists|t: int| 0 <= t < order.len() && #[trigger] order[t] == i
}

proof fn lemma_settle_prefix(k: nat, order: Seq<int>, outs: Seq<OutcomeView>, t: int)
    requires
        is_completion_order(order, k),
        outs.len() == k,
        0 <= t <= k,
    ensures
        ({
            let st = settle_in_order(
                unsettled(k),
                order.take(t),
                outs.take(t),
            );
            &&& st.len() == k
            &&& forall|s: int| 0 <= s < t ==> st[#[trigger] order[s]] == Some(outs[s])
            &&& forall|i: int|
                0 <= i < k && (forall|s: int| 0 <= s < t ==> #[trigger] order[s] != i) ==> (
                #[trigger] st[i]) is None
        }),
    decreases t,
{
    if t > 0 {
        lemma_settle_prefix(k, order, outs, t - 1);
        assert(order.take(t).drop_last() =~= order.take(t - 1));
        assert(outs.take(t).drop_last() =~= outs.take(t - 1));
        let prev = settle_in_order(
            unsettled(k),
            order.take(t - 1),
            outs.take(t - 1),
        );
        let st = settle_in_order(
            unsettled(k),
            order.take(t),
            outs.take(t),
        );
        assert(st == prev.update(order[t - 1], Some(outs[t - 1])));
        assert forall|s: int| 0 <= s < t implies st[#[trigger] order[s]] == Some(outs[s]) by {
            if s < t - 1 {
                assert(order[s] != order[t - 1]);
            }
        }
    }
}

proof fn lemma_count_all_settled(slots: Seq<Option<OutcomeView>>)
    requires
        all_settled(slots),
    ensures
        settled_count(slots) == slots.len(),
    decreases slots.len(),
{
    if slots.len() > 0 {
        let init = slots.drop_last();
        assert forall|i: int| 0 <= i < init.len() implies (#[trigger] init[i]) is Some by {
            assert(init[i] == slots[i]);
        }
        lemma_count_all_settled(init);
        assert(slots[slots.len() - 1] is Some);
    }
}

/// Whatever the order in which the tasks of a check over `k` repositories
/// complete, each one settles a task that had not settled, and in the end the
/// check holds exactly `k` outcomes, each task with its own.
pub proof fn lemma_every_task_settles_once(k: nat, order: Seq<int>, outs: Seq<OutcomeView>)
    requires
        is_completion_order(order, k),
        outs.len() == k,
    ensures
        forall|t: int|
            0 <= t < k ==> (#[trigger] settle_in_order(
                unsettled(k),
                order.take(t),
                outs.take(t),
            ))[order[t]] is None,
        ({
            let fin = settle_in_order(unsettled(k), order, outs);
            &&& fin.len() == k
            &&& all_settled(fin)
            &&& settled_count(fin) == k
            &&& forall|t: int| 0 <= t < k ==> fin[#[trigger] order[t]] == Some(outs[t])
        }),
{
    assert forall|t: int|
        0 <= t < k implies (#[trigger] settle_in_order(
        unsettled(k),
        order.take(t),
        outs.take(t),
    ))[order[t]] is None by {
        lemma_settle_prefix(k, order, outs, t);
        assert forall|s: int| 0 <= s < t implies #[trigger] order[s] != order[t] by {
            assert(order[s] != order[t]);
        }
    }
    lemma_settle_prefix(k, order, outs, k as int);
    assert(order.take(k as int) =~= order);
    assert(outs.take(k as int) =~= outs);
    let fin = settle_in_order(unsettled(k), order, outs);
    assert forall|i: int| 0 <= i < fin.len() implies (#[trigger] fin[i]) is Some by {
        assert(named_in(order, i));
        let t = choose|t: int| 0 <= t < order.len() && #[trigger] order[t] == i;
        assert(fin[order[t]] == Some(outs[t]));
    }
    lemma_count_all_settled(fin);
}

} // verus!
