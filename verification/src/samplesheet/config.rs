//! What the making of samplesheets is configured with.
use crate::text_map::TextMap;
use vstd::prelude::*;

verus! {

/// The references of one species.
pub struct SpeciesReference {
    /// The species.
    pub species: String,
    /// For each kind of library, the path of the reference.
    pub reference_path: TextMap,
}

/// The program that processes the data of one chemistry.
pub struct ChemistryProgram {
    /// The chemistry.
    pub chemistry: String,
    /// The program, its command and its version.
    pub program: (String, String, String),
}

/// What the making of samplesheets is configured with.
pub struct Config {
    /// The references of each species.
    pub species_reference_path: Vec<SpeciesReference>,
    /// The program of each chemistry.
    pub chemistry_program: Vec<ChemistryProgram>,
    /// For each species, the path of its probe set.
    pub species_probe_set: TextMap,
}

} // verus!
