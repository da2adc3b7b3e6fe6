//! Carrying out a plan, one move after the other. The renaming itself is
//! done by the caller: this module says what to do next and takes note of
//! how it went.

use crate::planner::{
    destinations, destinations_distinct, is_first_duplicate, move_command, move_command_text,
    validate, CollisionError, MovePair, MovePairView,
};
use vstd::prelude::*;

verus! {

/// What the caller is to do next.
#[derive(Debug, PartialEq, Eq)]
pub enum Action {
    /// Print this command and rename nothing.
    Print(String),
    /// Rename the source of this pair to its destination.
    Rename(MovePair),
    /// Stop: every move is done, or one has failed.
    Finish,
}

/// An `Action` as plain values.
pub enum ActionView {
    Print(Seq<char>),
    Rename(MovePairView),
    Finish,
}

impl View for Action {
    type V = ActionView;

    open spec fn view(&self) -> ActionView {
        match self {
            Action::Print(command) => ActionView::Print(command@),
            Action::Rename(pair) => ActionView::Rename(pair@),
            Action::Finish => ActionView::Finish,
        }
    }
}

/// A plan that passed validation, and how far it has been carried out.
pub struct Execution {
    plan: Vec<MovePair>,
    next: usize,
    dry_run: bool,
    failed: bool,
}

/// An `Execution` as plain values.
pub struct ExecutionView {
    /// The moves, in the order in which they are made.
    pub plan: Seq<MovePairView>,
    /// How many moves have been made.
    pub done: nat,
    /// Whether the moves are only printed.
    pub dry_run: bool,
    /// Whether a move has failed.
    pub failed: bool,
}

impl ExecutionView {
    /// What is to be done in this state. The moves come in the order of the
    /// plan; after a failure nothing more is attempted.
    pub open spec fn pending(self) -> ActionView {
        if self.failed || self.done >= self.plan.len() {
            ActionView::Finish
        } else if self.dry_run {
            ActionView::Print(move_command_text(self.plan[self.done as int]))
        } else {
            ActionView::Rename(self.plan[self.done as int])
        }
    }

    /// The state after the pending action went well or failed. Moves made
    /// before a failure stay made: nothing is undone.
    pub open spec fn after(self, succeeded: bool) -> ExecutionView {
        if self.pending() is Finish {
            self
        } else if succeeded {
            ExecutionView { done: self.done + 1, ..self }
        } else {
            ExecutionView { failed: true, ..self }
        }
    }
}

impl View for Execution {
    type V = ExecutionView;

    closed spec fn view(&self) -> ExecutionView {
        ExecutionView {
            plan: self.plan.deep_view(),
            done: self.next as nat,
            dry_run: self.dry_run,
            failed: self.failed,
        }
    }
}

impl Execution {
    #[verifier::type_invariant]
    closed spec fn well_formed(&self) -> bool {
        &&& self.next <= self.plan@.len()
        &&& destinations_distinct(self.plan.deep_view())
    }

    /// Begins to carry out `plan`, or refuses it as a whole if two of its
    /// moves have the same destination. With `dry_run` set the moves are
    /// printed and nothing is renamed.
    pub fn start(plan: Vec<MovePair>, dry_run: bool) -> (r: Result<Execution, CollisionError>)
        ensures
            match r {
                Ok(execution) => {
                    &&& destinations_distinct(plan.deep_view())
                    &&& execution@ == (ExecutionView {
                        plan: plan.deep_view(),
                        done: 0,
                        dry_run,
                        failed: false,
                    })
                },
                Err(e) => {
                    &&& !destinations_distinct(plan.deep_view())
                    &&& is_first_duplicate(
                        destinations(plan.deep_view()),
                        e.first as int,
                        e.second as int,
                    )
                    &&& e.destination@ == plan[e.second as int].destination@
                },
            },
    {
        match validate(&plan) {
            Ok(()) => Ok(Execution { plan, next: 0, dry_run, failed: false }),
            Err(e) => Err(e),
        }
    }

    /// What is to be done next.
    pub fn action(&self) -> (action: Action)
        ensures
            action@ == self@.pending(),
    {
        proof {
            use_type_invariant(self);
        }
        if self.failed || self.next >= self.plan.len() {
            Action::Finish
        } else if self.dry_run {
            Action::Print(move_command(&self.plan[self.next]))
        } else {
            Action::Rename(self.plan[self.next].clone())
        }
    }

    /// Takes note of how the pending action went.
    pub fn report(&mut self, succeeded: bool)
        ensures
            final(self)@ == old(self)@.after(succeeded),
    {
        proof {
            use_type_invariant(&*self);
        }
        if self.failed || self.next >= self.plan.len() {
        } else if succeeded {
            self.next = self.next + 1;
        } else {
            self.failed = true;
        }
    }

    /// How many moves have been made.
    pub fn completed(&self) -> (done: usize)
        ensures
            done == self@.done,
            done <= self@.plan.len(),
    {
        proof {
            use_type_invariant(self);
        }
        self.next
    }

    /// Whether no move has failed so far.
    pub fn succeeded(&self) -> (ok: bool)
        ensures
            ok == !self@.failed,
    {
        !self.failed
    }

    /// Whether nothing is left to do.
    pub fn is_finished(&self) -> (finished: bool)
        ensures
            finished == (self@.pending() is Finish),
    {
        self.failed || self.next >= self.plan.len()
    }
}

/// The state after a run of reports, the first of them first.
pub open spec fn after_all(state: ExecutionView, reports: Seq<bool>) -> ExecutionView
    decreases reports.len(),
{
    if reports.len() == 0 {
        state
    } else {
        after_all(state, reports.drop_last()).after(reports.last())
    }
}

/// Once a move has failed nothing more is attempted, whatever is reported,
/// and the moves made before the failure are not taken back.
pub proof fn lemma_failure_stops(state: ExecutionView, reports: Seq<bool>)
    requires
        state.failed,
    ensures
        after_all(state, reports) == state,
        after_all(state, reports).pending() is Finish,
    decreases reports.len(),
{
    if reports.len() > 0 {
        lemma_failure_stops(state, reports.drop_last());
    }
}

/// While every report is good, the moves are attempted in the order of the
/// plan: after `k` good reports the pending action is for the move at place
/// `k`, and after as many as the plan has moves the work is finished.
pub proof fn lemma_plan_order(plan: Seq<MovePairView>, dry_run: bool, k: nat)
    requires
        k <= plan.len(),
    ensures
        after_all(
            ExecutionView { plan, done: 0, dry_run, failed: false },
            Seq::new(k, |i: int| true),
        ) == (ExecutionView { plan, done: k, dry_run, failed: false }),
        k < plan.len() && !dry_run ==> (ExecutionView {
            plan,
            done: k,
            dry_run,
            failed: false,
        }).pending() == ActionView::Rename(plan[k as int]),
        k < plan.len() && dry_run ==> (ExecutionView {
            plan,
            done: k,
            dry_run,
            failed: false,
        }).pending() == ActionView::Print(move_command_text(plan[k as int])),
        k == plan.len() ==> (ExecutionView { plan, done: k, dry_run, failed: false }).pending()
            is Finish,
    decreases k,
{
    if k > 0 {
        let shorter = (k - 1) as nat;
        lemma_plan_order(plan, dry_run, shorter);
        assert(Seq::new(k, |i: int| true).drop_last() == Seq::new(shorter, |i: int| true));
    }
}

/// A dry run never asks for a file to be renamed.
pub proof fn lemma_dry_run_renames_nothing(state: ExecutionView)
    requires
        state.dry_run,
    ensures
        !(state.pending() is Rename),
{
}

} // verus!
