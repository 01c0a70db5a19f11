//! Carrying out the plans: what the operator is asked, and what becomes of
//! each plan.
//!
//! A plan starts as `Planned`. If its destination exists it is skipped. If not,
//! it is confirmed at once where no confirmation is wanted, and otherwise the
//! operator decides with `y` or `n`. A confirmed plan is moved, or it fails.
use crate::error::{viewed, StagingError, StagingErrorView};
use crate::path::{join, parent, path_join, path_parent};
use crate::scan::{
    first_index, is_first, lemma_first_index, lemma_first_index_is, lemma_first_index_none,
};
use crate::text::followed_by;
use crate::xenium::plan::{RelocationPlan, RelocationPlanView};
use vstd::prelude::*;

verus! {

/// Where a plan stands.
#[derive(Debug, Clone, Copy, PartialEq, Eq, Structural)]
pub enum PlanState {
    /// Nothing is decided yet.
    Planned,
    /// The destination exists: the plan is not carried out.
    SkippedExists,
    /// The plan is to be carried out.
    ConfirmedPending,
    /// The operator declined the plan.
    Declined,
    /// The data was moved.
    Moved,
    /// The move failed.
    Failed,
}

/// Whether a key answers the question: `y` or `n`.
pub open spec fn is_answer(key: char) -> bool {
    key == 'y' || key == 'n'
}

/// Whether the key at a position answers the question.
pub open spec fn answers_in(keys: Seq<char>) -> spec_fn(int) -> bool {
    |i: int| is_answer(keys[i])
}

/// Where a new plan stands once its destination has been looked at.
pub open spec fn started(destination_exists: bool, skip_confirm: bool) -> PlanState {
    if destination_exists {
        PlanState::SkippedExists
    } else if skip_confirm {
        PlanState::ConfirmedPending
    } else {
        PlanState::Planned
    }
}

/// Where a plan stands after the operator pressed `key`. Only a plan that is
/// not decided yet takes an answer, and only `y` and `n` are answers.
pub open spec fn answered(state: PlanState, key: char) -> PlanState {
    if state != PlanState::Planned {
        state
    } else if key == 'y' {
        PlanState::ConfirmedPending
    } else if key == 'n' {
        PlanState::Declined
    } else {
        PlanState::Planned
    }
}

/// Where a plan stands after its move ended. Only a confirmed plan is moved.
pub open spec fn finished(state: PlanState, success: bool) -> PlanState {
    if state != PlanState::ConfirmedPending {
        state
    } else if success {
        PlanState::Moved
    } else {
        PlanState::Failed
    }
}

/// Where a new plan stands after the operator pressed `keys`, one after the
/// other: the first answer among them decides, where a decision is the
/// operator's.
pub open spec fn confirmed(destination_exists: bool, skip_confirm: bool, keys: Seq<char>) -> PlanState {
    if started(destination_exists, skip_confirm) != PlanState::Planned {
        started(destination_exists, skip_confirm)
    } else {
        match first_index(keys.len() as int, answers_in(keys)) {
            Some(i) => answered(PlanState::Planned, keys[i]),
            None => PlanState::Planned,
        }
    }
}

impl PlanState {
    /// Where a new plan stands once its destination has been looked at.
    pub fn start(destination_exists: bool, skip_confirm: bool) -> (state: PlanState)
        ensures
            state == started(destination_exists, skip_confirm),
    {
        if destination_exists {
            PlanState::SkippedExists
        } else if skip_confirm {
            PlanState::ConfirmedPending
        } else {
            PlanState::Planned
        }
    }

    /// Where the plan stands after the operator pressed `key`.
    pub fn answer(self, key: char) -> (state: PlanState)
        ensures
            state == answered(self, key),
    {
        match self {
            PlanState::Planned => {
                if key == 'y' {
                    PlanState::ConfirmedPending
                } else if key == 'n' {
                    PlanState::Declined
                } else {
                    PlanState::Planned
                }
            },
            _ => self,
        }
    }

    /// Where the plan stands after its move ended, with or without success.
    pub fn finish(self, success: bool) -> (state: PlanState)
        ensures
            state == finished(self, success),
    {
        match self {
            PlanState::ConfirmedPending => {
                if success {
                    PlanState::Moved
                } else {
                    PlanState::Failed
                }
            },
            _ => self,
        }
    }

    /// Whether the operator has yet to answer.
    pub fn awaits_answer(self) -> (waiting: bool)
        ensures
            waiting == (self == PlanState::Planned),
    {
        match self {
            PlanState::Planned => true,
            _ => false,
        }
    }

    /// Whether the plan is to be carried out.
    pub fn is_pending(self) -> (pending: bool)
        ensures
            pending == (self == PlanState::ConfirmedPending),
    {
        match self {
            PlanState::ConfirmedPending => true,
            _ => false,
        }
    }
}

/// Where a new plan stands after the operator pressed `keys`, one after the
/// other. Keys after the first answer are not looked at.
pub fn confirm_move(destination_exists: bool, skip_confirm: bool, keys: &Vec<char>) -> (state:
    PlanState)
    ensures
        state == confirmed(destination_exists, skip_confirm, keys@),
{
    let mut state = PlanState::start(destination_exists, skip_confirm);
    let mut i: usize = 0;
    while i < keys.len() && state.awaits_answer()
        invariant
            i <= keys.len(),
            state == PlanState::Planned ==> started(destination_exists, skip_confirm)
                == PlanState::Planned,
            state == PlanState::Planned ==> forall|j: int|
                0 <= j < i ==> !#[trigger] answers_in(keys@)(j),
            state != PlanState::Planned ==> state == confirmed(
                destination_exists,
                skip_confirm,
                keys@,
            ),
        decreases keys.len() - i,
    {
        state = state.answer(keys[i]);
        proof {
            if state != PlanState::Planned {
                assert(answers_in(keys@)(i as int));
                lemma_first_index_is(keys.len() as int, answers_in(keys@), i as int);
            }
        }
        i = i + 1;
    }
    proof {
        if state == PlanState::Planned {
            lemma_first_index_none(keys.len() as int, answers_in(keys@));
        }
    }
    state
}

/// What the operator is shown for a plan: `<source> -> <destination>`.
pub open spec fn shown(plan: RelocationPlanView) -> Seq<char> {
    plan.source_path + " -> "@ + plan.destination_path
}

/// The directory `design` beside the destination of a plan, if the destination
/// has a directory above it.
pub open spec fn design_beside(plan: RelocationPlanView) -> Option<Seq<char>> {
    match path_parent(plan.destination_path) {
        Some(slide_dir) => Some(path_join(slide_dir, "design"@)),
        None => None,
    }
}

/// The result of a move that ended with or without success and reported
/// `diagnostic`.
pub open spec fn move_result(plan: RelocationPlanView, success: bool, diagnostic: Seq<char>) -> Result<
    (),
    StagingErrorView,
> {
    if success {
        Ok(())
    } else {
        Err(
            StagingErrorView::MoveFailed {
                source_path: plan.source_path,
                destination_path: plan.destination_path,
                diagnostic,
            },
        )
    }
}

impl RelocationPlan {
    /// What the operator is shown for this plan.
    pub fn describe(&self) -> (text: String)
        ensures
            text@ == shown(self@),
    {
        let text = followed_by(self.source_path.as_str(), " -> ");
        followed_by(text.as_str(), self.destination_path.as_str())
    }

    /// The directory `design` that is made beside the destination.
    pub fn design_path(&self) -> (path: Option<String>)
        ensures
            path.deep_view() == design_beside(self@),
    {
        match parent(self.destination_path.as_str()) {
            Some(slide_dir) => Some(join(slide_dir.as_str(), "design")),
            None => None,
        }
    }

    /// The result of this plan's move, which ended with or without success
    /// and reported `diagnostic`.
    pub fn move_outcome(&self, success: bool, diagnostic: String) -> (result: Result<(), StagingError>)
        ensures
            viewed(result) == move_result(self@, success, diagnostic@),
    {
        if success {
            Ok(())
        } else {
            Err(
                StagingError::MoveFailed {
                    source_path: self.source_path.clone(),
                    destination_path: self.destination_path.clone(),
                    diagnostic,
                },
            )
        }
    }
}

/// A plan whose destination exists is skipped, whatever the operator is asked
/// or answers, and it stays skipped: it is never moved. So staging a run a
/// second time moves nothing that the first time has moved.
pub proof fn lemma_existing_destination_is_skipped(
    skip_confirm: bool,
    keys: Seq<char>,
    key: char,
    success: bool,
)
    ensures
        confirmed(true, skip_confirm, keys) == PlanState::SkippedExists,
        answered(PlanState::SkippedExists, key) == PlanState::SkippedExists,
        finished(PlanState::SkippedExists, success) == PlanState::SkippedExists,
{
}

/// A plan is moved only after it was confirmed: by the operator's `y`, or
/// without a question where none is wanted, and never where the destination
/// exists.
pub proof fn lemma_moved_was_confirmed(
    destination_exists: bool,
    skip_confirm: bool,
    keys: Seq<char>,
    success: bool,
)
    requires
        finished(confirmed(destination_exists, skip_confirm, keys), success) == PlanState::Moved,
    ensures
        success,
        !destination_exists,
        skip_confirm || exists|i: int|
            is_first(keys.len() as int, answers_in(keys), i) && keys[i] == 'y',
{
    if !skip_confirm {
        lemma_first_index(keys.len() as int, answers_in(keys));
    }
}

} // verus!
