//! The ways in which staging a run can fail.
use vstd::prelude::*;

verus! {

/// Why a response of the spreadsheet service does not have the shape of four
/// single-column ranges, given row by row.
#[derive(Debug, Clone, Copy, PartialEq, Eq, Structural)]
pub enum ResponseDefect {
    /// The response holds `found` ranges, not four.
    RangeCount { found: usize },
    /// A range is not given row by row: its major dimension is not `ROWS`.
    Dimension,
    /// The row with index `row` of a range holds more than one cell.
    WideRow { row: usize },
}

/// An error of the staging pipeline. Each carries what is needed to act on it.
#[derive(Debug, PartialEq, Eq)]
pub enum StagingError {
    /// The text `literal` is not a range of one column, such as `A1:A10`.
    MalformedColumnRange { literal: String },
    /// The range `literal` does not start and end at the rows at which the
    /// range of the lab names does.
    RowBoundsMismatch { literal: String },
    /// The response cannot be read as four single-column ranges.
    MalformedResponse { defect: ResponseDefect },
    /// The four columns do not have the same number of rows.
    RowCountMismatch { lab_names: usize, run_ids: usize, slide_ids: usize, slide_names: usize },
    /// In the row with index `row`, some cells are empty and some are not.
    PartialRow { row: usize },
    /// The run directory at `path` has no name, or its name holds no `__`.
    MalformedRunName { path: String },
    /// The entry at `path` has no name, or its name holds no `__`.
    MalformedSubdirName { path: String },
    /// The spreadsheet holds no slide with the run ID of the directory at `path`.
    UnknownRun { path: String, run_id: String },
    /// The spreadsheet lists `slides` slides for the run of the directory at
    /// `path`, which holds `subdirectories` subdirectories.
    CountMismatch { path: String, slides: usize, subdirectories: usize },
    /// Two slides of one run have the name `name`, or two subdirectories do.
    DuplicateSlideName { name: String },
    /// No slide of the run has the slide name of the subdirectory at `path`.
    UnmatchedSubdirectory { path: String },
    /// No staging directory is configured for the lab `lab_name`.
    UnknownLab { lab_name: String },
    /// The staging directory `path` could not be resolved to an absolute path.
    PathResolution { path: String },
    /// Moving `source_path` to `destination_path` failed; `diagnostic` is what
    /// the move reported.
    MoveFailed { source_path: String, destination_path: String, diagnostic: String },
}

/// A `StagingError` with each text as a sequence of characters.
pub enum StagingErrorView {
    MalformedColumnRange { literal: Seq<char> },
    RowBoundsMismatch { literal: Seq<char> },
    MalformedResponse { defect: ResponseDefect },
    RowCountMismatch { lab_names: usize, run_ids: usize, slide_ids: usize, slide_names: usize },
    PartialRow { row: usize },
    MalformedRunName { path: Seq<char> },
    MalformedSubdirName { path: Seq<char> },
    UnknownRun { path: Seq<char>, run_id: Seq<char> },
    CountMismatch { path: Seq<char>, slides: usize, subdirectories: usize },
    DuplicateSlideName { name: Seq<char> },
    UnmatchedSubdirectory { path: Seq<char> },
    UnknownLab { lab_name: Seq<char> },
    PathResolution { path: Seq<char> },
    MoveFailed { source_path: Seq<char>, destination_path: Seq<char>, diagnostic: Seq<char> },
}

impl View for StagingError {
    type V = StagingErrorView;

    open spec fn view(&self) -> StagingErrorView {
        match *self {
            StagingError::MalformedColumnRange {
                literal,
            } => StagingErrorView::MalformedColumnRange { literal: literal@ },
            StagingError::RowBoundsMismatch { literal } => StagingErrorView::RowBoundsMismatch {
                literal: literal@,
            },
            StagingError::MalformedResponse { defect } => StagingErrorView::MalformedResponse {
                defect,
            },
            StagingError::RowCountMismatch {
                lab_names,
                run_ids,
                slide_ids,
                slide_names,
            } => StagingErrorView::RowCountMismatch { lab_names, run_ids, slide_ids, slide_names },
            StagingError::PartialRow { row } => StagingErrorView::PartialRow { row },
            StagingError::MalformedRunName { path } => StagingErrorView::MalformedRunName {
                path: path@,
            },
            StagingError::MalformedSubdirName { path } => StagingErrorView::MalformedSubdirName {
                path: path@,
            },
            StagingError::UnknownRun { path, run_id } => StagingErrorView::UnknownRun {
                path: path@,
                run_id: run_id@,
            },
            StagingError::CountMismatch {
                path,
                slides,
                subdirectories,
            } => StagingErrorView::CountMismatch { path: path@, slides, subdirectories },
            StagingError::DuplicateSlideName { name } => StagingErrorView::DuplicateSlideName {
                name: name@,
            },
            StagingError::UnmatchedSubdirectory {
                path,
            } => StagingErrorView::UnmatchedSubdirectory { path: path@ },
            StagingError::UnknownLab { lab_name } => StagingErrorView::UnknownLab {
                lab_name: lab_name@,
            },
            StagingError::PathResolution { path } => StagingErrorView::PathResolution {
                path: path@,
            },
            StagingError::MoveFailed {
                source_path,
                destination_path,
                diagnostic,
            } => StagingErrorView::MoveFailed {
                source_path: source_path@,
                destination_path: destination_path@,
                diagnostic: diagnostic@,
            },
        }
    }
}

/// A result with what it holds as sequences of characters.
pub open spec fn viewed<T: DeepView>(result: Result<T, StagingError>) -> Result<T::V, StagingErrorView> {
    match result {
        Ok(value) => Ok(value.deep_view()),
        Err(error) => Err(error@),
    }
}

} // verus!
