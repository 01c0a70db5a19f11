//! Matching the subdirectories of a run with the slides of the spreadsheet,
//! and where each subdirectory is to go.
use crate::error::{viewed, StagingError, StagingErrorView};
use crate::path::{join, path_join};
use crate::scan::{
    first_index, is_first, lemma_distinct_positions_are_all, lemma_first_index,
    lemma_first_index_is, lemma_first_index_none,
};
use crate::text::{followed_by, same_text};
use crate::text_map::TextMap;
use crate::xenium::config::{staging_dir_of, StagingDirSpecification, StagingDirView};
use crate::xenium::dir::{ParsedDataDir, ParsedDataDirView, SubDir, SubDirView};
use crate::xenium::slide::{Slide, SlideIndex, SlideView};
use vstd::prelude::*;

verus! {

/// One move: the subdirectory at `source_path` goes to `destination_path`.
#[derive(Debug, PartialEq, Eq)]
pub struct RelocationPlan {
    pub source_path: String,
    pub destination_path: String,
}

/// A `RelocationPlan` with each text as a sequence of characters.
pub struct RelocationPlanView {
    pub source_path: Seq<char>,
    pub destination_path: Seq<char>,
}

impl View for RelocationPlan {
    type V = RelocationPlanView;

    open spec fn view(&self) -> RelocationPlanView {
        RelocationPlanView {
            source_path: self.source_path@,
            destination_path: self.destination_path@,
        }
    }
}

impl DeepView for RelocationPlan {
    type V = RelocationPlanView;

    open spec fn deep_view(&self) -> RelocationPlanView {
        self@
    }
}

impl Clone for RelocationPlan {
    fn clone(&self) -> (copy: RelocationPlan)
        ensures
            copy@ == self@,
    {
        RelocationPlan {
            source_path: self.source_path.clone(),
            destination_path: self.destination_path.clone(),
        }
    }
}

/// The name of the directory that a slide is staged in:
/// `<slide ID>-<run ID>_<slide name>`.
pub open spec fn slide_dir_name(slide: SlideView) -> Seq<char> {
    slide.id + "-"@ + slide.run_id + "_"@ + slide.name
}

/// Where the output for `slide` goes: the directory `xeniumranger` in the
/// slide's directory, below the resolved staging directory of the slide's lab.
/// `resolved` holds, for each lab whose staging directory could be resolved,
/// the absolute path of that directory. A lab without a staging directory is
/// an error, and so is a staging directory that could not be resolved.
pub open spec fn destination_of(
    slide: SlideView,
    staging: StagingDirView,
    resolved: Map<Seq<char>, Seq<char>>,
) -> Result<Seq<char>, StagingErrorView> {
    match staging_dir_of(staging, slide.lab_name) {
        Err(error) => Err(error),
        Ok(dir) => if resolved.contains_key(slide.lab_name) {
            Ok(
                path_join(
                    path_join(resolved[slide.lab_name], slide_dir_name(slide)),
                    "xeniumranger"@,
                ),
            )
        } else {
            Err(StagingErrorView::PathResolution { path: dir })
        },
    }
}

/// Whether the record at a position has the name `name`.
pub open spec fn has_name(records: Seq<SlideView>, name: Seq<char>) -> spec_fn(int) -> bool {
    |k: int| records[k].name == name
}

/// Whether a subdirectory before the one at `i` has the same slide name: the
/// name is then taken.
pub open spec fn taken_before(subdirs: Seq<SubDirView>, i: int) -> bool {
    exists|j: int| 0 <= j < i && (#[trigger] subdirs[j]).slide_name == subdirs[i].slide_name
}

/// Whether a record after the one at `k` has the same name.
pub open spec fn named_again(records: Seq<SlideView>, k: int) -> bool {
    exists|l: int| k < l < records.len() && (#[trigger] records[l]).name == records[k].name
}

/// What becomes of one subdirectory.
pub enum Pairing {
    /// No record has the subdirectory's slide name.
    Unmatched,
    /// The subdirectory has a record, and the pair cannot be staged.
    Failed(StagingErrorView),
    /// The subdirectory has its record and its destination.
    Planned(RelocationPlanView),
}

/// What becomes of the subdirectory at `i`. It is paired with the first record
/// that has its slide name. The pair fails if an earlier subdirectory took that
/// name, if the record has no destination, or if a later record has the name
/// too, in this order.
pub open spec fn pairing(
    subdirs: Seq<SubDirView>,
    records: Seq<SlideView>,
    staging: StagingDirView,
    resolved: Map<Seq<char>, Seq<char>>,
    i: int,
) -> Pairing {
    let subdir = subdirs[i];
    match first_index(records.len() as int, has_name(records, subdir.slide_name)) {
        None => Pairing::Unmatched,
        Some(k) => if taken_before(subdirs, i) {
            Pairing::Failed(StagingErrorView::DuplicateSlideName { name: subdir.slide_name })
        } else {
            match destination_of(records[k], staging, resolved) {
                Err(error) => Pairing::Failed(error),
                Ok(destination_path) => if named_again(records, k) {
                    Pairing::Failed(
                        StagingErrorView::DuplicateSlideName { name: subdir.slide_name },
                    )
                } else {
                    Pairing::Planned(
                        RelocationPlanView { source_path: subdir.path, destination_path },
                    )
                },
            }
        },
    }
}

/// Whether the pair of the subdirectory at a position fails.
pub open spec fn fails(
    subdirs: Seq<SubDirView>,
    records: Seq<SlideView>,
    staging: StagingDirView,
    resolved: Map<Seq<char>, Seq<char>>,
) -> spec_fn(int) -> bool {
    |i: int| pairing(subdirs, records, staging, resolved, i) is Failed
}

/// Whether the subdirectory at a position has no record.
pub open spec fn unmatched(
    subdirs: Seq<SubDirView>,
    records: Seq<SlideView>,
    staging: StagingDirView,
    resolved: Map<Seq<char>, Seq<char>>,
) -> spec_fn(int) -> bool {
    |i: int| pairing(subdirs, records, staging, resolved, i) is Unmatched
}

/// The plans for the subdirectories `subdirs` of one run, whose records are
/// `records`: one plan for each subdirectory, in their order. The first pair
/// that fails is an error; if none fails, the first subdirectory without a
/// record is.
pub open spec fn paired(
    subdirs: Seq<SubDirView>,
    records: Seq<SlideView>,
    staging: StagingDirView,
    resolved: Map<Seq<char>, Seq<char>>,
) -> Result<Seq<RelocationPlanView>, StagingErrorView> {
    let n = subdirs.len() as int;
    match first_index(n, fails(subdirs, records, staging, resolved)) {
        Some(i) => Err(pairing(subdirs, records, staging, resolved, i)->Failed_0),
        None => match first_index(n, unmatched(subdirs, records, staging, resolved)) {
            Some(i) => Err(StagingErrorView::UnmatchedSubdirectory { path: subdirs[i].path }),
            None => Ok(
                Seq::new(
                    subdirs.len(),
                    |i: int| pairing(subdirs, records, staging, resolved, i)->Planned_0,
                ),
            ),
        },
    }
}

/// The plans for the run directory `dir`. The spreadsheet must know the run,
/// and list as many slides for it as the directory has subdirectories; then
/// the plans are those of `paired`.
pub open spec fn planned(
    dir: ParsedDataDirView,
    slides: Map<Seq<char>, Seq<SlideView>>,
    staging: StagingDirView,
    resolved: Map<Seq<char>, Seq<char>>,
) -> Result<Seq<RelocationPlanView>, StagingErrorView> {
    if !slides.contains_key(dir.run_id) {
        Err(StagingErrorView::UnknownRun { path: dir.path, run_id: dir.run_id })
    } else if slides[dir.run_id].len() != dir.subdirs.len() {
        Err(
            StagingErrorView::CountMismatch {
                path: dir.path,
                slides: slides[dir.run_id].len() as usize,
                subdirectories: dir.subdirs.len() as usize,
            },
        )
    } else {
        paired(dir.subdirs, slides[dir.run_id], staging, resolved)
    }
}

/// What becomes of one subdirectory, as `Pairing` with owned texts.
enum Paired {
    Unmatched,
    Failed(StagingError),
    Planned(RelocationPlan),
}

impl View for Paired {
    type V = Pairing;

    closed spec fn view(&self) -> Pairing {
        match *self {
            Paired::Unmatched => Pairing::Unmatched,
            Paired::Failed(error) => Pairing::Failed(error@),
            Paired::Planned(plan) => Pairing::Planned(plan@),
        }
    }
}

/// The position of the first record with the name `name`.
fn find_named(records: &Vec<Slide>, name: &str) -> (found: Option<usize>)
    ensures
        match found {
            Some(k) => k < records.len() && first_index(
                records.len() as int,
                has_name(records.deep_view(), name@),
            ) == Some(k as int),
            None => first_index(records.len() as int, has_name(records.deep_view(), name@)) is None,
        },
{
    let ghost named = has_name(records.deep_view(), name@);
    let mut k: usize = 0;
    while k < records.len()
        invariant
            k <= records.len(),
            named == has_name(records.deep_view(), name@),
            forall|l: int| 0 <= l < k ==> !#[trigger] named(l),
        decreases records.len() - k,
    {
        if same_text(records[k].name.as_str(), name) {
            proof {
                assert(named(k as int));
                lemma_first_index_is(records.len() as int, named, k as int);
            }
            return Some(k);
        }
        k = k + 1;
    }
    proof {
        lemma_first_index_none(records.len() as int, named);
    }
    None
}

/// Whether a record after the one at `k` has the same name.
fn is_named_again(records: &Vec<Slide>, k: usize) -> (again: bool)
    requires
        k < records.len(),
    ensures
        again == named_again(records.deep_view(), k as int),
{
    let ghost all = records.deep_view();
    let mut l: usize = k + 1;
    while l < records.len()
        invariant
            k < l <= records.len(),
            all == records.deep_view(),
            forall|m: int| k < m < l ==> (#[trigger] all[m]).name != all[k as int].name,
        decreases records.len() - l,
    {
        if same_text(records[l].name.as_str(), records[k].name.as_str()) {
            assert(all[l as int].name == all[k as int].name);
            return true;
        }
        l = l + 1;
    }
    false
}

/// Whether a subdirectory before the one at `i` has the same slide name.
fn is_taken_before(subdirs: &Vec<SubDir>, i: usize) -> (taken: bool)
    requires
        i < subdirs.len(),
    ensures
        taken == taken_before(subdirs.deep_view(), i as int),
{
    let ghost all = subdirs.deep_view();
    let mut j: usize = 0;
    while j < i
        invariant
            j <= i < subdirs.len(),
            all == subdirs.deep_view(),
            forall|m: int| 0 <= m < j ==> (#[trigger] all[m]).slide_name != all[i as int].slide_name,
        decreases i - j,
    {
        if same_text(subdirs[j].slide_name.as_str(), subdirs[i].slide_name.as_str()) {
            assert(all[j as int].slide_name == all[i as int].slide_name);
            return true;
        }
        j = j + 1;
    }
    false
}

impl Slide {
    /// The name of the directory that the slide is staged in.
    pub fn dir_name(&self) -> (name: String)
        ensures
            name@ == slide_dir_name(self@),
    {
        let mut name = followed_by(self.id.as_str(), "-");
        name = followed_by(name.as_str(), self.run_id.as_str());
        name = followed_by(name.as_str(), "_");
        followed_by(name.as_str(), self.name.as_str())
    }

    /// Where the output for the slide goes: `destination_of` the slide.
    pub fn destination(&self, staging_dir_spec: &StagingDirSpecification, resolved: &TextMap) -> (path:
        Result<String, StagingError>)
        ensures
            viewed(path) == destination_of(self@, staging_dir_spec@, resolved@),
    {
        let lab_staging_dir = match staging_dir_spec.lab_staging_dir(self.lab_name.as_str()) {
            Ok(dir) => dir,
            Err(error) => {
                return Err(error);
            },
        };
        match resolved.get(self.lab_name.as_str()) {
            Some(absolute) => {
                let slide_dir = join(absolute.as_str(), self.dir_name().as_str());
                Ok(join(slide_dir.as_str(), "xeniumranger"))
            },
            None => Err(StagingError::PathResolution { path: lab_staging_dir }),
        }
    }
}

/// What becomes of the subdirectory at `i`.
fn pair(
    subdirs: &Vec<SubDir>,
    records: &Vec<Slide>,
    staging_dir_spec: &StagingDirSpecification,
    resolved: &TextMap,
    i: usize,
) -> (paired: Paired)
    requires
        i < subdirs.len(),
    ensures
        paired@ == pairing(
            subdirs.deep_view(),
            records.deep_view(),
            staging_dir_spec@,
            resolved@,
            i as int,
        ),
{
    let subdir = &subdirs[i];
    assert(subdirs.deep_view()[i as int] == subdir@);
    let k = match find_named(records, subdir.slide_name.as_str()) {
        Some(k) => k,
        None => {
            return Paired::Unmatched;
        },
    };
    assert(records.deep_view()[k as int] == records[k as int]@);
    if is_taken_before(subdirs, i) {
        return Paired::Failed(StagingError::DuplicateSlideName { name: subdir.slide_name.clone() });
    }
    let destination_path = match records[k].destination(staging_dir_spec, resolved) {
        Ok(path) => path,
        Err(error) => {
            return Paired::Failed(error);
        },
    };
    if is_named_again(records, k) {
        return Paired::Failed(StagingError::DuplicateSlideName { name: subdir.slide_name.clone() });
    }
    Paired::Planned(RelocationPlan { source_path: subdir.path.clone(), destination_path })
}

/// The plans for the subdirectories `subdirs`, whose run has the records
/// `records`: `paired` of them.
pub fn pair_subdirs(
    subdirs: &Vec<SubDir>,
    records: &Vec<Slide>,
    staging_dir_spec: &StagingDirSpecification,
    resolved: &TextMap,
) -> (plans: Result<Vec<RelocationPlan>, StagingError>)
    ensures
        viewed(plans) == paired(subdirs.deep_view(), records.deep_view(), staging_dir_spec@, resolved@),
{
    let ghost subs = subdirs.deep_view();
    let ghost recs = records.deep_view();
    let ghost failing = fails(subs, recs, staging_dir_spec@, resolved@);
    let ghost lone = unmatched(subs, recs, staging_dir_spec@, resolved@);
    let mut plans: Vec<RelocationPlan> = Vec::new();
    let mut first_unmatched: Option<usize> = None;
    let mut i: usize = 0;
    while i < subdirs.len()
        invariant
            i <= subdirs.len(),
            subs == subdirs.deep_view(),
            recs == records.deep_view(),
            failing == fails(subs, recs, staging_dir_spec@, resolved@),
            lone == unmatched(subs, recs, staging_dir_spec@, resolved@),
            forall|j: int| 0 <= j < i ==> !#[trigger] failing(j),
            match first_unmatched {
                Some(u) => is_first(i as int, lone, u as int),
                None => {
                    &&& plans.len() == i
                    &&& forall|j: int|
                        0 <= j < i ==> pairing(subs, recs, staging_dir_spec@, resolved@, j)
                            == Pairing::Planned((#[trigger] plans[j])@)
                },
            },
        decreases subdirs.len() - i,
    {
        match pair(subdirs, records, staging_dir_spec, resolved, i) {
            Paired::Failed(error) => {
                proof {
                    assert(failing(i as int));
                    lemma_first_index_is(subs.len() as int, failing, i as int);
                }
                return Err(error);
            },
            Paired::Unmatched => {
                assert(lone(i as int));
                assert(!failing(i as int));
                if first_unmatched.is_none() {
                    assert forall|j: int| 0 <= j < i implies !#[trigger] lone(j) by {
                        assert(pairing(subs, recs, staging_dir_spec@, resolved@, j)
                            == Pairing::Planned(plans[j]@));
                    }
                    first_unmatched = Some(i);
                }
            },
            Paired::Planned(plan) => {
                assert(!failing(i as int));
                if first_unmatched.is_none() {
                    plans.push(plan);
                }
            },
        }
        i = i + 1;
    }
    proof {
        lemma_first_index_none(subs.len() as int, failing);
    }
    match first_unmatched {
        Some(u) => {
            proof {
                lemma_first_index_is(subs.len() as int, lone, u as int);
            }
            assert(subs[u as int] == subdirs[u as int]@);
            Err(StagingError::UnmatchedSubdirectory { path: subdirs[u].path.clone() })
        },
        None => {
            proof {
                assert forall|j: int| 0 <= j < subs.len() implies !#[trigger] lone(j) by {
                    assert(pairing(subs, recs, staging_dir_spec@, resolved@, j)
                        == Pairing::Planned(plans[j]@));
                }
                lemma_first_index_none(subs.len() as int, lone);
                assert(plans.deep_view() =~= Seq::new(
                    subs.len(),
                    |i: int| pairing(subs, recs, staging_dir_spec@, resolved@, i)->Planned_0,
                ));
            }
            Ok(plans)
        },
    }
}

impl ParsedDataDir {
    /// The plans for this run directory: `planned` of it. `slides` is the
    /// index of the spreadsheet's slides, and `resolved` holds, for each lab
    /// whose staging directory could be resolved, the absolute path of that
    /// directory.
    pub fn construct_new_subdir_names(
        &self,
        slides: &SlideIndex,
        staging_dir_spec: &StagingDirSpecification,
        resolved: &TextMap,
    ) -> (plans: Result<Vec<RelocationPlan>, StagingError>)
        ensures
            viewed(plans) == planned(self@, slides@, staging_dir_spec@, resolved@),
    {
        let matching_slides = match slides.get(self.run_id.as_str()) {
            Some(matching_slides) => matching_slides,
            None => {
                return Err(
                    StagingError::UnknownRun { path: self.path.clone(), run_id: self.run_id.clone() },
                );
            },
        };
        assert(matching_slides.deep_view().len() == matching_slides.len());
        assert(self.subdirs.deep_view().len() == self.subdirs.len());
        if matching_slides.len() != self.subdirs.len() {
            return Err(
                StagingError::CountMismatch {
                    path: self.path.clone(),
                    slides: matching_slides.len(),
                    subdirectories: self.subdirs.len(),
                },
            );
        }
        pair_subdirs(&self.subdirs, matching_slides, staging_dir_spec, resolved)
    }
}

/// Planning is a function of what it is given: two plannings of the same run
/// directory with the same slides and staging directories give the same
/// plans, with the same sources and destinations in the same order, or the
/// same error.
pub proof fn lemma_planning_repeats(
    dir: ParsedDataDirView,
    slides: Map<Seq<char>, Seq<SlideView>>,
    staging: StagingDirView,
    resolved: Map<Seq<char>, Seq<char>>,
    first: Result<Vec<RelocationPlan>, StagingError>,
    second: Result<Vec<RelocationPlan>, StagingError>,
)
    requires
        viewed(first) == planned(dir, slides, staging, resolved),
        viewed(second) == planned(dir, slides, staging, resolved),
    ensures
        viewed(first) == viewed(second),
        first is Ok <==> second is Ok,
        first is Ok ==> first->Ok_0.deep_view() == second->Ok_0.deep_view(),
{
}

/// A run directory with another number of subdirectories than the spreadsheet
/// lists slides for its run is refused, with both numbers.
pub proof fn lemma_count_mismatch(
    dir: ParsedDataDirView,
    slides: Map<Seq<char>, Seq<SlideView>>,
    staging: StagingDirView,
    resolved: Map<Seq<char>, Seq<char>>,
)
    requires
        slides.contains_key(dir.run_id),
        slides[dir.run_id].len() != dir.subdirs.len(),
    ensures
        planned(dir, slides, staging, resolved) == Err::<Seq<RelocationPlanView>, _>(
            StagingErrorView::CountMismatch {
                path: dir.path,
                slides: slides[dir.run_id].len() as usize,
                subdirectories: dir.subdirs.len() as usize,
            },
        ),
{
}

/// Whether the subdirectory at a position has the slide name `name`.
pub open spec fn subdir_named(subdirs: Seq<SubDirView>, name: Seq<char>) -> spec_fn(int) -> bool {
    |i: int| subdirs[i].slide_name == name
}

/// Where two records of a run share a name, the first subdirectory with that
/// name fails, and so the run has no plans. The failure is that of a duplicate
/// slide name, unless the first of the records has no destination.
pub proof fn lemma_shared_name_fails(
    subdirs: Seq<SubDirView>,
    records: Seq<SlideView>,
    staging: StagingDirView,
    resolved: Map<Seq<char>, Seq<char>>,
    name: Seq<char>,
    k: int,
    l: int,
    i: int,
)
    requires
        0 <= k < l < records.len(),
        records[k].name == name,
        records[l].name == name,
        is_first(subdirs.len() as int, subdir_named(subdirs, name), i),
    ensures
        pairing(subdirs, records, staging, resolved, i) is Failed,
        paired(subdirs, records, staging, resolved) is Err,
        first_index(records.len() as int, has_name(records, name)) matches Some(first)
            && (destination_of(records[first], staging, resolved) is Ok ==> pairing(
            subdirs,
            records,
            staging,
            resolved,
            i,
        ) == Pairing::Failed(StagingErrorView::DuplicateSlideName { name })),
{
    let named = has_name(records, name);
    assert(named(k));
    lemma_first_index(records.len() as int, named);
    let first = first_index(records.len() as int, named).unwrap();
    assert(first <= k) by {
        if k < first {
            assert(!named(k));
        }
    }
    assert(records[l].name == records[first].name);
    assert(named_again(records, first));
    assert(!taken_before(subdirs, i)) by {
        if taken_before(subdirs, i) {
            let j = choose|j: int| 0 <= j < i && (#[trigger] subdirs[j]).slide_name == subdirs[i].slide_name;
            assert(subdir_named(subdirs, name)(j));
        }
    }
    assert(subdir_named(subdirs, name)(i));
    let failing = fails(subdirs, records, staging, resolved);
    assert(failing(i));
    lemma_first_index(subdirs.len() as int, failing);
}

/// Where a run is planned, its subdirectories and its records are paired one
/// to one: `record_of` gives for each subdirectory the position of its record,
/// which has the subdirectory's slide name and gives the plan its destination;
/// no record is that of two subdirectories, and every record is that of one.
pub proof fn lemma_plans_pair_one_to_one(
    subdirs: Seq<SubDirView>,
    records: Seq<SlideView>,
    staging: StagingDirView,
    resolved: Map<Seq<char>, Seq<char>>,
) -> (record_of: Seq<int>)
    requires
        subdirs.len() == records.len(),
        paired(subdirs, records, staging, resolved) is Ok,
    ensures
        record_of.len() == subdirs.len(),
        paired(subdirs, records, staging, resolved)->Ok_0.len() == subdirs.len(),
        forall|i: int|
            0 <= i < subdirs.len() ==> {
                let plan = paired(subdirs, records, staging, resolved)->Ok_0[i];
                &&& 0 <= #[trigger] record_of[i] < records.len()
                &&& records[record_of[i]].name == subdirs[i].slide_name
                &&& plan.source_path == subdirs[i].path
                &&& destination_of(records[record_of[i]], staging, resolved) == Ok::<
                    _,
                    StagingErrorView,
                >(plan.destination_path)
            },
        forall|i: int, j: int|
            0 <= i < j < subdirs.len() ==> #[trigger] record_of[i] != #[trigger] record_of[j],
        forall|k: int| 0 <= k < records.len() ==> record_of.contains(k),
{
    let n = subdirs.len() as int;
    let failing = fails(subdirs, records, staging, resolved);
    let lone = unmatched(subdirs, records, staging, resolved);
    lemma_first_index(n, failing);
    lemma_first_index(n, lone);
    let record_of = Seq::new(
        subdirs.len(),
        |i: int| first_index(records.len() as int, has_name(records, subdirs[i].slide_name)).unwrap(),
    );
    assert forall|i: int| 0 <= i < n implies {
        let plan = paired(subdirs, records, staging, resolved)->Ok_0[i];
        &&& 0 <= #[trigger] record_of[i] < records.len()
        &&& records[record_of[i]].name == subdirs[i].slide_name
        &&& plan.source_path == subdirs[i].path
        &&& destination_of(records[record_of[i]], staging, resolved) == Ok::<_, StagingErrorView>(
            plan.destination_path,
        )
        &&& !taken_before(subdirs, i)
    } by {
        assert(!failing(i));
        assert(!lone(i));
        lemma_first_index(records.len() as int, has_name(records, subdirs[i].slide_name));
    }
    assert forall|i: int, j: int| 0 <= i < j < n implies #[trigger] record_of[i]
        != #[trigger] record_of[j] by {
        if record_of[i] == record_of[j] {
            assert(records[record_of[i]].name == subdirs[i].slide_name);
            assert(records[record_of[j]].name == subdirs[j].slide_name);
            assert(subdirs[i].slide_name == subdirs[j].slide_name);
            assert(taken_before(subdirs, j));
        }
    }
    assert(record_of.no_duplicates()) by {
        assert forall|i: int, j: int|
            0 <= i < record_of.len() && 0 <= j < record_of.len() && i != j implies record_of[i]
            != record_of[j] by {
            if i < j {
                assert(record_of[i] != record_of[j]);
            } else {
                assert(record_of[j] != record_of[i]);
            }
        }
    }
    lemma_distinct_positions_are_all(record_of, n);
    record_of
}

} // verus!
