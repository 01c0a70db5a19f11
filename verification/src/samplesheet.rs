//! What a samplesheet is made from.
pub mod config;
pub mod tracking_sheet;
