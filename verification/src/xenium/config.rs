//! What the staging of runs is configured with.
use crate::error::{viewed, StagingError, StagingErrorView};
use crate::path::{join, path_join};
use crate::text::followed_by;
use crate::text_map::TextMap;
use crate::xenium::range::{ColumnRange, ColumnRangeView, SlideField};
use vstd::prelude::*;

verus! {

/// What staging is configured with.
pub struct Config {
    /// The key that the spreadsheet service knows the caller by. It is sent in
    /// a header of each request, and shown nowhere.
    pub google_sheets_api_key: String,
    /// Where the slides are in the spreadsheet.
    pub spreadsheet_spec: SpreadsheetSpecification,
    /// Where staged data goes.
    pub staging_dir_spec: StagingDirSpecification,
}

/// Where the slides are: a spreadsheet, and the ranges in it.
pub struct SpreadsheetSpecification {
    /// The ID of the spreadsheet.
    pub id: String,
    /// The sheet and the ranges that hold the four fields.
    pub ranges: ColumnRange,
}

/// A `SpreadsheetSpecification` with each text as a sequence of characters.
pub struct SpreadsheetSpecificationView {
    pub id: Seq<char>,
    pub ranges: ColumnRangeView,
}

impl View for SpreadsheetSpecification {
    type V = SpreadsheetSpecificationView;

    open spec fn view(&self) -> SpreadsheetSpecificationView {
        SpreadsheetSpecificationView { id: self.id@, ranges: self.ranges@ }
    }
}

/// The address at which the service gives the values of the range of the field
/// `field`: that of the spreadsheet's values, with the sheet, `!` and the range.
pub open spec fn url_of(spec: SpreadsheetSpecificationView, field: SlideField) -> Seq<char> {
    "https://sheets.googleapis.com/v4/spreadsheets/"@ + spec.id + "/values/"@ + spec.ranges.sheet
        + "!"@ + spec.ranges.range(field)
}

impl SpreadsheetSpecification {
    /// The address at which the service gives the values of the range of the
    /// field `field`.
    pub fn to_url(&self, field: SlideField) -> (url: String)
        ensures
            url@ == url_of(self@, field),
    {
        let mut url = followed_by("https://sheets.googleapis.com/v4/spreadsheets/", self.id.as_str());
        url = followed_by(url.as_str(), "/values/");
        url = followed_by(url.as_str(), self.ranges.sheet().as_str());
        url = followed_by(url.as_str(), "!");
        followed_by(url.as_str(), self.ranges.range(field).as_str())
    }
}

/// Where staged data goes: a root directory, and for each lab its directory
/// below the root.
pub struct StagingDirSpecification {
    /// The root of the staging area.
    pub root: String,
    /// For each lab name, the lab's directory, relative to the root.
    pub lab_dirs: TextMap,
}

/// A `StagingDirSpecification` with each text as a sequence of characters.
pub struct StagingDirView {
    pub root: Seq<char>,
    pub lab_dirs: Map<Seq<char>, Seq<char>>,
}

impl View for StagingDirSpecification {
    type V = StagingDirView;

    open spec fn view(&self) -> StagingDirView {
        StagingDirView { root: self.root@, lab_dirs: self.lab_dirs@ }
    }
}

/// The staging directory of the lab `lab_name`: the lab's directory joined to
/// the root. A lab without a directory is an error.
pub open spec fn staging_dir_of(staging: StagingDirView, lab_name: Seq<char>) -> Result<
    Seq<char>,
    StagingErrorView,
> {
    if staging.lab_dirs.contains_key(lab_name) {
        Ok(path_join(staging.root, staging.lab_dirs[lab_name]))
    } else {
        Err(StagingErrorView::UnknownLab { lab_name })
    }
}

impl StagingDirSpecification {
    /// The staging directory of the lab `lab_name`, not yet resolved to an
    /// absolute path.
    pub fn lab_staging_dir(&self, lab_name: &str) -> (dir: Result<String, StagingError>)
        ensures
            viewed(dir) == staging_dir_of(self@, lab_name@),
    {
        match self.lab_dirs.get(lab_name) {
            Some(lab_dir) => Ok(join(self.root.as_str(), lab_dir.as_str())),
            None => Err(StagingError::UnknownLab { lab_name: lab_name.to_owned() }),
        }
    }
}

} // verus!
