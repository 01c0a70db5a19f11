//! Staging of instrument runs: the slide records of a spreadsheet are matched
//! with the subdirectories of each run, and every match gets the place in the
//! lab's staging area that its data moves to. Beside it stand the tables of
//! the tracking sheet, from which samplesheets are made.
use vstd::prelude::*;

pub mod error;
pub mod path;
pub mod samplesheet;
pub mod scan;
pub mod text;
pub mod text_map;
pub mod tracking_sheet;
pub mod xenium;

verus! {

/// What the program is configured with.
pub struct AppConfig {
    /// What the making of samplesheets is configured with.
    pub samplesheet: samplesheet::config::Config,
    /// What the staging of Xenium runs is configured with.
    pub xenium: xenium::config::Config,
}

} // verus!
