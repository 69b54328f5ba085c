//! Source detection: which recorder family produced an avionics log.

use vstd::prelude::*;

use crate::garmin::{GarminLogFile, GarminLogFileParseError};
use crate::AviationLogSourceOption;

verus! {

/// Error type for source detection
#[derive(Debug, PartialEq, Eq, Structural)]
pub enum SourceDetectionError {
    UnrecognizedSource,
}

/// Detect the source of an avionics log file
///
/// This is useful to determine the correct parser to use for the log file.
/// Content sniffing is not implemented yet: every log is taken to come from
/// the one supported recorder family.
pub fn detect_source(_path: &str) -> (r: Result<AviationLogSourceOption, SourceDetectionError>)
    ensures
        r == Result::<AviationLogSourceOption, SourceDetectionError>::Ok(
            AviationLogSourceOption::Garmin,
        ),
{
    Ok(AviationLogSourceOption::Garmin)
}

/// Read an avionics log file's text into a data structure
///
/// This is where all logic about how to build each source type belongs.
pub fn read_avionics_log(source: &AviationLogSourceOption, text: &str) -> (r: Result<
    GarminLogFile,
    GarminLogFileParseError,
>)
    ensures
        r is Ok <==> crate::garmin::garmin_parse_ok(text@),
        r matches Ok(f) ==> f.data@ == crate::garmin::garmin_table_spec(text@) && f.data@.wf(),
{
    match source {
        AviationLogSourceOption::Garmin => GarminLogFile::new(text),
    }
}

} // verus!
