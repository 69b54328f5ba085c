//! Conversion of avionics flight-data logs into the X-Plane Flight Data
//! Recorder (FDR) replay format.
//!
//! The pipeline parses a self-describing three-line log header, infers a
//! per-column value type from each column's physical unit, loads the data
//! rows into an in-memory table, normalizes and reorders that table, maps
//! source columns to destination identifiers, and serializes the result as
//! FDR text.

use vstd::prelude::*;

pub mod detection;
pub mod fdr;
pub mod garmin;
pub mod num;
pub mod table;
pub mod text;

verus! {

/// The command line surface of the converter, as plain data; paths travel
/// as plain strings. The binary shell carries its own copy of this struct
/// with the argument-parser derives.
pub struct Args {
    /// The source of the avionics log file, otherwise auto-detect source
    pub source: Option<AviationLogSourceOption>,
    /// The path to an aircraft file, relative to the X-Plane root, to be
    /// used as the aircraft model during replay
    pub aircraft: String,
    /// Optionally override the aircraft tail number, if any, that was
    /// discovered in the avionics log
    pub tail_number: Option<String>,
    /// Path to an avionics log file
    pub input: String,
    /// Path to output a FDR file. If not specified, output is written to
    /// stdout
    pub output: Option<String>,
    /// If set, do not ignore unknown data fields in the avionics log
    pub strict: bool,
}

/// Supported avionics log sources that can be used as command line arguments
#[derive(Copy, Clone, Debug, PartialEq, Eq, Structural)]
pub enum AviationLogSourceOption {
    /// Flight data logs from Garmin Engine Indication System (EIS) products.
    /// One such example is the G500 TXi EIS
    Garmin,
}

} // verus!
