//! Staging the output of Xenium runs.
//!
//! The slides of the spreadsheet are read from the service's response, each
//! run directory is planned against them by itself, and the plans of the runs
//! that could be planned are carried out together.
use crate::error::{viewed, StagingError, StagingErrorView};
use crate::path::path_file_name;
use crate::text_map::TextMap;
use crate::xenium::config::{StagingDirSpecification, StagingDirView};
use crate::xenium::dir::{listed, parsed_dir, ParsedDataDir};
use crate::xenium::plan::{planned, RelocationPlan, RelocationPlanView};
use crate::xenium::slide::{SlideIndex, SlideView};
use crate::xenium::spreadsheet::{slides_of, ValueRange, ValueRangeView};
use vstd::prelude::*;

pub mod config;
pub mod dir;
pub mod plan;
pub mod range;
pub mod relocate;
pub mod slide;
pub mod spreadsheet;

verus! {

/// The number of fields of a slide record, and of ranges in a response.
pub const N_FIELDS: usize = 4;

/// What planning made of one run directory: its plans, or why it has none.
pub type RunOutcome = Result<Vec<RelocationPlan>, StagingError>;

/// A `RunOutcome` with each text as a sequence of characters.
pub type RunOutcomeView = Result<Seq<RelocationPlanView>, StagingErrorView>;

/// The outcomes `outcomes`, each with its texts as sequences of characters.
pub open spec fn outcome_views(outcomes: Seq<RunOutcome>) -> Seq<RunOutcomeView> {
    Seq::new(outcomes.len(), |i: int| viewed(outcomes[i]))
}

/// A run directory as it was listed: its path, and the paths of its entries
/// in the order in which the directory listed them.
#[derive(Debug, PartialEq, Eq)]
pub struct RunListing {
    pub dir: String,
    pub entries: Vec<String>,
}

/// A `RunListing` with each text as a sequence of characters.
pub struct RunListingView {
    pub dir: Seq<char>,
    pub entries: Seq<Seq<char>>,
}

impl View for RunListing {
    type V = RunListingView;

    open spec fn view(&self) -> RunListingView {
        RunListingView { dir: self.dir@, entries: self.entries.deep_view() }
    }
}

impl DeepView for RunListing {
    type V = RunListingView;

    open spec fn deep_view(&self) -> RunListingView {
        self@
    }
}

/// What staging makes of one run directory: the directory is read from its
/// listing, and planned against the slides `slides`.
pub open spec fn staged_run(
    listing: RunListingView,
    slides: Map<Seq<char>, Seq<SlideView>>,
    staging: StagingDirView,
    resolved: Map<Seq<char>, Seq<char>>,
) -> RunOutcomeView {
    match parsed_dir(listing.dir, path_file_name(listing.dir), listed(listing.entries)) {
        Err(error) => Err(error),
        Ok(dir) => planned(dir, slides, staging, resolved),
    }
}

/// What staging makes of the run directories with the listings `listings`:
/// each is staged by itself, so that one that fails leaves the others as they
/// are.
pub open spec fn run_outcomes(
    listings: Seq<RunListingView>,
    slides: Map<Seq<char>, Seq<SlideView>>,
    staging: StagingDirView,
    resolved: Map<Seq<char>, Seq<char>>,
) -> Seq<RunOutcomeView> {
    Seq::new(listings.len(), |i: int| staged_run(listings[i], slides, staging, resolved))
}

/// The plans of the runs that could be planned, run after run.
pub open spec fn moves_of(outcomes: Seq<RunOutcomeView>) -> Seq<RelocationPlanView>
    decreases outcomes.len(),
{
    if outcomes.len() == 0 {
        Seq::empty()
    } else {
        moves_of(outcomes.drop_last()) + match outcomes.last() {
            Ok(plans) => plans,
            Err(_) => Seq::empty(),
        }
    }
}

/// What staging makes of a response and of run directories: the slides are
/// read from the ranges `ranges` of the response, and each directory is
/// staged against them. Without the slides nothing is staged.
pub open spec fn staged(
    ranges: Seq<ValueRangeView>,
    listings: Seq<RunListingView>,
    staging: StagingDirView,
    resolved: Map<Seq<char>, Seq<char>>,
) -> Result<Seq<RunOutcomeView>, StagingErrorView> {
    match slides_of(ranges) {
        Err(error) => Err(error),
        Ok(slides) => Ok(run_outcomes(listings, slides, staging, resolved)),
    }
}

/// Reads the run directory of the listing `listing` and plans it against the
/// slides `slides`: `staged_run` of them.
pub fn stage_run(
    listing: &RunListing,
    slides: &SlideIndex,
    staging_dir_spec: &StagingDirSpecification,
    resolved: &TextMap,
) -> (outcome: RunOutcome)
    ensures
        viewed(outcome) == staged_run(listing@, slides@, staging_dir_spec@, resolved@),
{
    match ParsedDataDir::from_dir(listing.dir.as_str(), &listing.entries) {
        Ok(dir) => dir.construct_new_subdir_names(slides, staging_dir_spec, resolved),
        Err(error) => Err(error),
    }
}

/// The plans of the runs that could be planned, run after run.
pub fn planned_moves(outcomes: &Vec<RunOutcome>) -> (moves: Vec<RelocationPlan>)
    ensures
        moves.deep_view() == moves_of(outcome_views(outcomes@)),
{
    let ghost all = outcome_views(outcomes@);
    let mut moves: Vec<RelocationPlan> = Vec::new();
    let mut i: usize = 0;
    assert(moves.deep_view() =~= moves_of(all.take(0)));
    while i < outcomes.len()
        invariant
            i <= outcomes.len(),
            all == outcome_views(outcomes@),
            moves.deep_view() == moves_of(all.take(i as int)),
        decreases outcomes.len() - i,
    {
        proof {
            assert(all.take(i + 1).drop_last() == all.take(i as int));
            assert(all.take(i + 1).last() == viewed(outcomes[i as int]));
        }
        match &outcomes[i] {
            Ok(plans) => {
                let ghost before = moves.deep_view();
                let mut j: usize = 0;
                while j < plans.len()
                    invariant
                        j <= plans.len(),
                        moves.deep_view() == before + plans.deep_view().take(j as int),
                    decreases plans.len() - j,
                {
                    let ghost so_far = moves.deep_view();
                    moves.push(plans[j].clone());
                    assert(moves.deep_view() == so_far.push(plans[j as int]@));
                    assert(plans.deep_view().take(j + 1) == plans.deep_view().take(j as int).push(
                        plans[j as int]@,
                    ));
                    j = j + 1;
                }
                assert(plans.deep_view().take(plans.len() as int) == plans.deep_view());
            },
            Err(_) => {
                assert(moves.deep_view() + Seq::<RelocationPlanView>::empty() == moves.deep_view());
            },
        }
        i = i + 1;
    }
    assert(all.take(outcomes.len() as int) == all);
    moves
}

/// Reads the slides from the ranges `ranges` of a response and stages each of
/// the run directories with the listings `listings` against them: `staged` of
/// them. `resolved` holds, for each lab whose staging directory could be
/// resolved, the absolute path of that directory.
pub fn stage_data(
    ranges: &Vec<ValueRange>,
    listings: &Vec<RunListing>,
    staging_dir_spec: &StagingDirSpecification,
    resolved: &TextMap,
) -> (outcomes: Result<Vec<RunOutcome>, StagingError>)
    ensures
        match outcomes {
            Ok(runs) => staged(
                ranges.deep_view(),
                listings.deep_view(),
                staging_dir_spec@,
                resolved@,
            ) == Ok::<_, StagingErrorView>(outcome_views(runs@)),
            Err(error) => staged(
                ranges.deep_view(),
                listings.deep_view(),
                staging_dir_spec@,
                resolved@,
            ) == Err::<Seq<RunOutcomeView>, _>(error@),
        },
{
    let xenium_slides = match ValueRange::to_xenium_slides(ranges) {
        Ok(slides) => slides,
        Err(error) => {
            return Err(error);
        },
    };
    let mut outcomes: Vec<RunOutcome> = Vec::new();
    let mut i: usize = 0;
    while i < listings.len()
        invariant
            i <= listings.len(),
            outcomes.len() == i,
            forall|j: int|
                0 <= j < i ==> viewed(#[trigger] outcomes[j]) == staged_run(
                    listings[j]@,
                    xenium_slides@,
                    staging_dir_spec@,
                    resolved@,
                ),
        decreases listings.len() - i,
    {
        let outcome = stage_run(&listings[i], &xenium_slides, staging_dir_spec, resolved);
        outcomes.push(outcome);
        i = i + 1;
    }
    assert(outcome_views(outcomes@) =~= run_outcomes(
        listings.deep_view(),
        xenium_slides@,
        staging_dir_spec@,
        resolved@,
    ));
    Ok(outcomes)
}

} // verus!
