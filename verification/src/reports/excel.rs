//! The excel exporter.
use vstd::prelude::*;

use crate::error::Error;
use crate::scanner::walker::ScanReport;
use vstd::string::StringExecFns;

verus! {

/// Export a multi-sheet workbook: Summary, Largest Files, Directory Sizes,
/// Duplicates, Line Counts.
/// This build has no Excel workbook writer: the export fails and nothing is written.
pub fn export(_report: &ScanReport, _out: &str) -> (r: Result<(), Error>)
    ensures
        r matches Err(Error::Report(m)) && m@ == "Excel export is not available in this build"@,
{
    Err(Error::Report(String::from_str("Excel export is not available in this build")))
}

} // verus!
