use scbl_utils::error::StagingError;
use scbl_utils::xenium::plan::RelocationPlan;
use scbl_utils::xenium::relocate::{confirm_move, PlanState};

fn staged(source_path: &str, destination_path: &str) -> RelocationPlan {
    RelocationPlan {
        source_path: source_path.to_string(),
        destination_path: destination_path.to_string(),
    }
}

#[test]
fn an_existing_destination_is_skipped() {
    assert_eq!(PlanState::start(true, false), PlanState::SkippedExists);
    assert_eq!(PlanState::start(true, true), PlanState::SkippedExists);
    assert_eq!(confirm_move(true, false, &vec!['y']), PlanState::SkippedExists);
    assert_eq!(confirm_move(true, true, &Vec::new()), PlanState::SkippedExists);
}

#[test]
fn without_confirmation_a_plan_is_confirmed_at_once() {
    assert_eq!(PlanState::start(false, true), PlanState::ConfirmedPending);
    assert_eq!(confirm_move(false, true, &vec!['n']), PlanState::ConfirmedPending);
}

#[test]
fn the_operator_decides_with_y_or_n() {
    assert_eq!(PlanState::start(false, false), PlanState::Planned);
    assert_eq!(confirm_move(false, false, &vec!['y']), PlanState::ConfirmedPending);
    assert_eq!(confirm_move(false, false, &vec!['n']), PlanState::Declined);
    assert_eq!(confirm_move(false, false, &vec!['y', 'n']), PlanState::ConfirmedPending);
    assert_eq!(confirm_move(false, false, &vec!['n', 'y']), PlanState::Declined);
}

#[test]
fn other_keys_ask_again() {
    assert_eq!(confirm_move(false, false, &Vec::new()), PlanState::Planned);
    assert_eq!(confirm_move(false, false, &vec!['x', 'Y', ' ']), PlanState::Planned);
    assert_eq!(confirm_move(false, false, &vec!['x', 'N', 'n', 'y']), PlanState::Declined);
    assert_eq!(confirm_move(false, false, &vec!['\n', 'y']), PlanState::ConfirmedPending);
    assert_eq!(PlanState::Planned.answer('Y'), PlanState::Planned);
    assert!(PlanState::Planned.awaits_answer());
}

#[test]
fn only_an_undecided_plan_takes_an_answer() {
    assert_eq!(PlanState::SkippedExists.answer('y'), PlanState::SkippedExists);
    assert_eq!(PlanState::Declined.answer('y'), PlanState::Declined);
    assert_eq!(PlanState::ConfirmedPending.answer('n'), PlanState::ConfirmedPending);
    assert_eq!(PlanState::Moved.answer('n'), PlanState::Moved);
    assert_eq!(PlanState::Failed.answer('y'), PlanState::Failed);
    assert!(!PlanState::Declined.awaits_answer());
    assert!(!PlanState::ConfirmedPending.awaits_answer());
}

#[test]
fn only_a_confirmed_plan_is_moved() {
    assert_eq!(PlanState::ConfirmedPending.finish(true), PlanState::Moved);
    assert_eq!(PlanState::ConfirmedPending.finish(false), PlanState::Failed);
    assert_eq!(PlanState::SkippedExists.finish(true), PlanState::SkippedExists);
    assert_eq!(PlanState::Declined.finish(true), PlanState::Declined);
    assert_eq!(PlanState::Planned.finish(true), PlanState::Planned);
    assert_eq!(PlanState::Moved.finish(false), PlanState::Moved);
    assert!(PlanState::ConfirmedPending.is_pending());
    assert!(!PlanState::Planned.is_pending());
    assert!(!PlanState::Moved.is_pending());
}

#[test]
fn a_second_staging_skips_what_the_first_has_moved() {
    let first = confirm_move(false, false, &vec!['y']).finish(true);
    assert_eq!(first, PlanState::Moved);
    let second = confirm_move(true, false, &vec!['y']).finish(true);
    assert_eq!(second, PlanState::SkippedExists);
}

#[test]
fn a_plan_is_shown_as_source_and_destination() {
    let plan = staged("/data/run/o__S1", "/stage/laba/ID1-R1_S1/xeniumranger");
    assert_eq!(plan.describe(), "/data/run/o__S1 -> /stage/laba/ID1-R1_S1/xeniumranger");
}

#[test]
fn design_stands_beside_the_destination() {
    let plan = staged("/data/run/o__S1", "/stage/laba/ID1-R1_S1/xeniumranger");
    assert_eq!(plan.design_path(), Some("/stage/laba/ID1-R1_S1/design".to_string()));
    assert_eq!(staged("a", "/").design_path(), None);
    assert_eq!(staged("a", "xeniumranger").design_path(), Some("design".to_string()));
}

#[test]
fn a_failed_move_carries_what_it_reported() {
    let plan = staged("/data/run/o__S1", "/stage/laba/ID1-R1_S1/xeniumranger");
    assert_eq!(plan.move_outcome(true, "".to_string()), Ok(()));
    assert_eq!(plan.move_outcome(true, "warning".to_string()), Ok(()));
    assert_eq!(
        plan.move_outcome(false, "mv: cannot move".to_string()),
        Err(StagingError::MoveFailed {
            source_path: "/data/run/o__S1".to_string(),
            destination_path: "/stage/laba/ID1-R1_S1/xeniumranger".to_string(),
            diagnostic: "mv: cannot move".to_string(),
        })
    );
}
