//! The tables of the tracking sheet, as a samplesheet is made from them: one
//! file for each table, in some of which a line stands before the names of
//! the columns.
use crate::path::{join, path_join};
use crate::text::{skip_lines, without_lines};
use vstd::prelude::*;

verus! {

/// A table that is read from a file in the directory of the tracking sheet.
pub trait FromTrackingSheetDir: Sized {
    /// The name of the table's file.
    spec fn table_file() -> Seq<char>;

    /// The number of lines before the line with the names of the columns.
    spec fn lines_before_header() -> nat;

    /// The name of the table's file.
    fn filename() -> (name: &'static str)
        ensures
            name@ == Self::table_file(),
    ;

    /// The number of lines before the line with the names of the columns.
    fn header_row() -> (lines: usize)
        ensures
            lines == Self::lines_before_header(),
    ;
}

/// Where the file of the table `T` is in the directory `dir`.
pub fn table_path<T: FromTrackingSheetDir>(dir: &str) -> (path: String)
    ensures
        path@ == path_join(dir@, T::table_file()),
{
    join(dir, T::filename())
}

/// The part of the file of the table `T` that holds the records: the
/// contents `contents` of the file from the line with the names of the
/// columns on.
pub fn table_records<T: FromTrackingSheetDir>(contents: &str) -> (records: String)
    ensures
        records@ == skip_lines(contents@, T::lines_before_header()),
{
    without_lines(contents, T::header_row())
}

/// What has an ID.
pub trait Id {
    /// The ID.
    spec fn id_text(&self) -> Seq<char>;

    /// The ID.
    fn id(&self) -> (id: &str)
        ensures
            id@ == self.id_text(),
    ;
}

/// A suspension: a row of the table `Chromium(Suspensions)`.
pub struct Suspension {
    /// The column `Suspension ID`.
    pub id: String,
    /// The column `Specimen Name`.
    pub name: String,
    /// The column `Species`.
    pub species: String,
    /// The column `Cellular Material`.
    pub cellular_material: String,
    /// The column `Tissue`.
    pub tissue: String,
    /// The column `Multiplexing Tag ID`.
    pub tag_id: Option<String>,
    /// The column `Pooled Into ID`.
    pub pooled_into_id: Option<String>,
}

impl FromTrackingSheetDir for Suspension {
    open spec fn table_file() -> Seq<char> {
        "Chromium(Suspensions).csv"@
    }

    open spec fn lines_before_header() -> nat {
        1
    }

    fn filename() -> (name: &'static str) {
        "Chromium(Suspensions).csv"
    }

    fn header_row() -> (lines: usize) {
        1
    }
}

impl Id for Suspension {
    open spec fn id_text(&self) -> Seq<char> {
        self.id@
    }

    fn id(&self) -> (id: &str) {
        self.id.as_str()
    }
}

/// A pool of suspensions: a row of the table `Chromium(Multiplexed Suspensions)`.
pub struct MultiplexedSuspension {
    /// The column `Multiplexed Suspension (Pool) ID`.
    pub id: String,
    /// The column `Multiplexed Suspension (Pool) Name`.
    pub name: String,
}

impl FromTrackingSheetDir for MultiplexedSuspension {
    open spec fn table_file() -> Seq<char> {
        "Chromium(Multiplexed Suspensions).csv"@
    }

    open spec fn lines_before_header() -> nat {
        1
    }

    fn filename() -> (name: &'static str) {
        "Chromium(Multiplexed Suspensions).csv"
    }

    fn header_row() -> (lines: usize) {
        1
    }
}

impl Id for MultiplexedSuspension {
    open spec fn id_text(&self) -> Seq<char> {
        self.id@
    }

    fn id(&self) -> (id: &str) {
        self.id.as_str()
    }
}

/// A GEMs reaction: a row of the table `Chromium(GEMs)`.
pub struct Gems {
    /// The column `GEMs ID`.
    pub id: String,
    /// The column `Chemistry`.
    pub chemistry: String,
}

impl FromTrackingSheetDir for Gems {
    open spec fn table_file() -> Seq<char> {
        "Chromium(GEMs).csv"@
    }

    open spec fn lines_before_header() -> nat {
        0
    }

    fn filename() -> (name: &'static str) {
        "Chromium(GEMs).csv"
    }

    fn header_row() -> (lines: usize) {
        0
    }
}

impl Id for Gems {
    open spec fn id_text(&self) -> Seq<char> {
        self.id@
    }

    fn id(&self) -> (id: &str) {
        self.id.as_str()
    }
}

/// What went into a GEMs reaction: a row of the table
/// `Chromium(GEMs-Suspensions)`.
pub struct GemsSuspensions {
    /// The column `GEMs ID`.
    pub gems_id: String,
    /// The column `Suspension ID`.
    pub suspension_id: Option<String>,
    /// The column `Multiplexed Suspension ID`.
    pub multiplexed_suspension_id: Option<String>,
}

impl FromTrackingSheetDir for GemsSuspensions {
    open spec fn table_file() -> Seq<char> {
        "Chromium(GEMs-Suspensions).csv"@
    }

    open spec fn lines_before_header() -> nat {
        0
    }

    fn filename() -> (name: &'static str) {
        "Chromium(GEMs-Suspensions).csv"
    }

    fn header_row() -> (lines: usize) {
        0
    }
}

/// A library: a row of the table `Chromium(Libraries)`.
pub struct Library {
    /// The column `Library ID`.
    pub id: String,
    /// The column `GEMs ID`.
    pub gems_id: String,
    /// The column `Library Type`.
    pub type_: String,
}

impl FromTrackingSheetDir for Library {
    open spec fn table_file() -> Seq<char> {
        "Chromium(Libraries).csv"@
    }

    open spec fn lines_before_header() -> nat {
        0
    }

    fn filename() -> (name: &'static str) {
        "Chromium(Libraries).csv"
    }

    fn header_row() -> (lines: usize) {
        0
    }
}

impl Id for Library {
    open spec fn id_text(&self) -> Seq<char> {
        self.id@
    }

    fn id(&self) -> (id: &str) {
        self.id.as_str()
    }
}

} // verus!
