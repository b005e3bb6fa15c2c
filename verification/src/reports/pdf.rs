//! The pdf exporter.
use vstd::prelude::*;

use crate::error::Error;
use crate::scanner::walker::ScanReport;
use vstd::string::StringExecFns;

verus! {

/// Render a PDF report including summary stats, top-N files, and an embedded
/// treemap snapshot.
/// This build has no PDF writer: the export fails and nothing is written.
pub fn export(_report: &ScanReport, _out: &str) -> (r: Result<(), Error>)
    ensures
        r matches Err(Error::Report(m)) && m@ == "PDF export is not available in this build"@,
{
    Err(Error::Report(String::from_str("PDF export is not available in this build")))
}

} // verus!
