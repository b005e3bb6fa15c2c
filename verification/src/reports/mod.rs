//! Export of scan results: the choice of format, and the per-format writers.
pub mod csv;
pub mod excel;
pub mod html;
pub mod pdf;

use vstd::prelude::*;

pub use crate::cli::args::ExportFormat;
use crate::paths::extension_of;

verus! {

/// The format implied by the extension of `out` (case-insensitive): `pdf`;
/// `xlsx`/`xls`; `html`/`htm`; `csv`; anything else, or none, is JSON.
pub open spec fn format_for_extension(ext: Option<Seq<char>>) -> ExportFormat {
    match ext {
        Some(e) => {
            let l = crate::text::lower(e);
            if l == "pdf"@ {
                ExportFormat::Pdf
            } else if l == "xlsx"@ || l == "xls"@ {
                ExportFormat::Excel
            } else if l == "html"@ || l == "htm"@ {
                ExportFormat::Html
            } else if l == "csv"@ {
                ExportFormat::Csv
            } else {
                ExportFormat::Json
            }
        },
        None => ExportFormat::Json,
    }
}

/// The format implied by the extension of `out`.
pub fn infer_format(out: &str) -> (r: ExportFormat)
    ensures
        r == format_for_extension(extension_of(out@)),
{
    match crate::paths::path_extension(out) {
        Some(e) => {
            let l = crate::text::to_ascii_lower(e.as_str());
            let s = l.as_str();
            if crate::text::str_eq(s, "pdf") {
                ExportFormat::Pdf
            } else if crate::text::str_eq(s, "xlsx") || crate::text::str_eq(s, "xls") {
                ExportFormat::Excel
            } else if crate::text::str_eq(s, "html") || crate::text::str_eq(s, "htm") {
                ExportFormat::Html
            } else if crate::text::str_eq(s, "csv") {
                ExportFormat::Csv
            } else {
                ExportFormat::Json
            }
        },
        None => ExportFormat::Json,
    }
}

/// The format an export to `out` uses: `format` when given, otherwise the
/// one implied by the extension of `out`.
pub open spec fn export_format(out: Seq<char>, format: Option<ExportFormat>) -> ExportFormat {
    match format {
        Some(f) => f,
        None => format_for_extension(extension_of(out)),
    }
}

/// An export in a named format uses that format whatever the extension of
/// the output; an export with no format named uses the one that the
/// extension implies (JSON when there is none, or it is not known).
pub proof fn lemma_export_format(out: Seq<char>, f: ExportFormat)
    ensures
        export_format(out, Some(f)) == f,
        export_format(out, None) == export_format(out, Some(format_for_extension(extension_of(out)))),
        extension_of(out) is None ==> export_format(out, None) == ExportFormat::Json,
{
}

/// The format an export to `out` uses: `format` when given, otherwise the
/// one implied by the extension of `out`.
pub fn chosen_format(out: &str, format: Option<ExportFormat>) -> (r: ExportFormat)
    ensures
        r == export_format(out@, format),
{
    match format {
        Some(f) => f,
        None => infer_format(out),
    }
}

} // verus!
