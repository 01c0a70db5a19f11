//! The tables of the tracking sheet, as they are exported: one file for each
//! table, with the names of its columns in the first line.
use crate::path::{join, path_join};
use vstd::prelude::*;

verus! {

/// The tables of a tracking sheet.
pub struct TrackingSheet {
    pub suspensions: Vec<Suspension>,
    pub multiplexed_suspensions: Vec<MultiplexedSuspension>,
    pub gems: Vec<Gems>,
    pub gems_suspensions: Vec<GemsSuspensions>,
    pub libraries: Vec<Library>,
}

/// A table that is read from a file in the directory of the tracking sheet.
pub trait FromTrackingSheetDir: Sized {
    /// The name of the table's file.
    spec fn table_file() -> Seq<char>;

    /// The name of the table's file.
    fn filename() -> (name: &'static str)
        ensures
            name@ == Self::table_file(),
    ;
}

/// Where the file of the table `T` is in the directory `dir`.
pub fn table_path<T: FromTrackingSheetDir>(dir: &str) -> (path: String)
    ensures
        path@ == path_join(dir@, T::table_file()),
{
    join(dir, T::filename())
}

/// What has an ID.
pub trait Id {
    /// The ID.
    spec fn id_text(&self) -> Seq<char>;

    /// The ID.
    fn id(&self) -> (id: &str)
        ensures
            id@ == self.id_text(),
    ;
}

/// A suspension: a row of the table `Chromium(Suspensions)`.
pub struct Suspension {
    /// The column `Suspension ID`.
    pub id: String,
    /// The column `Specimen Name`.
    pub name: String,
    /// The column `Species`.
    pub species: String,
    /// The column `Cellular Material`.
    pub cellular_material: String,
}

impl FromTrackingSheetDir for Suspension {
    open spec fn table_file() -> Seq<char> {
        "Chromium(Suspensions).csv"@
    }

    fn filename() -> (name: &'static str) {
        "Chromium(Suspensions).csv"
    }
}

impl Id for Suspension {
    open spec fn id_text(&self) -> Seq<char> {
        self.id@
    }

    fn id(&self) -> (id: &str) {
        self.id.as_str()
    }
}

/// A pool of suspensions: a row of the table `Chromium(Multiplexed Suspensions)`.
pub struct MultiplexedSuspension {
    /// The column `Multiplexed Suspension (Pool) ID`.
    pub id: String,
    /// The column `Multiplexed Suspension (Pool) Name`.
    pub name: String,
}

impl FromTrackingSheetDir for MultiplexedSuspension {
    open spec fn table_file() -> Seq<char> {
        "Chromium(Multiplexed Suspensions).csv"@
    }

    fn filename() -> (name: &'static str) {
        "Chromium(Multiplexed Suspensions).csv"
    }
}

impl Id for MultiplexedSuspension {
    open spec fn id_text(&self) -> Seq<char> {
        self.id@
    }

    fn id(&self) -> (id: &str) {
        self.id.as_str()
    }
}

/// A GEMs reaction: a row of the table `Chromium(GEMs)`.
pub struct Gems {
    /// The column `GEMs ID`.
    pub id: String,
    /// The column `Chemistry`.
    pub chemistry: String,
}

impl FromTrackingSheetDir for Gems {
    open spec fn table_file() -> Seq<char> {
        "Chromium(GEMs).csv"@
    }

    fn filename() -> (name: &'static str) {
        "Chromium(GEMs).csv"
    }
}

impl Id for Gems {
    open spec fn id_text(&self) -> Seq<char> {
        self.id@
    }

    fn id(&self) -> (id: &str) {
        self.id.as_str()
    }
}

/// What went into a GEMs reaction: a row of the table
/// `Chromium(GEMs-Suspensions)`.
pub struct GemsSuspensions {
    /// The column `GEMs ID`.
    pub gems_id: String,
    /// The column `Suspension ID`.
    pub suspension_id: Option<String>,
    /// The column `Multiplexed Suspension ID`.
    pub multiplexed_suspension_id: Option<String>,
}

impl FromTrackingSheetDir for GemsSuspensions {
    open spec fn table_file() -> Seq<char> {
        "Chromium(GEMs-Suspensions).csv"@
    }

    fn filename() -> (name: &'static str) {
        "Chromium(GEMs-Suspensions).csv"
    }
}

/// A library: a row of the table `Chromium(Libraries)`.
pub struct Library {
    /// The column `Library ID`.
    pub id: String,
    /// The column `GEMs ID`.
    pub gems_id: String,
    /// The column `Library Type`.
    pub type_: String,
    /// The column `Fails QC`.
    pub fails_qc: bool,
}

impl FromTrackingSheetDir for Library {
    open spec fn table_file() -> Seq<char> {
        "Chromium(Libraries).csv"@
    }

    fn filename() -> (name: &'static str) {
        "Chromium(Libraries).csv"
    }
}

impl Id for Library {
    open spec fn id_text(&self) -> Seq<char> {
        self.id@
    }

    fn id(&self) -> (id: &str) {
        self.id.as_str()
    }
}

} // verus!
