//! Rendering a drift report in the supported formats.

pub mod hcl;
pub mod csv_output;
pub mod table;
pub mod human;

use vstd::prelude::*;

use crate::cli::OutputFormat;
use crate::drift::types::DriftReport;

verus! {

/// A rendered report.
pub enum Rendered {
    /// Text to print.
    Text(String),
    /// Bytes to write.
    Bytes(Vec<u8>),
    /// The report is to be written as JSON, by a serializer of its fields.
    Json,
}

/// Renders the report in the given format.
pub fn render(report: &DriftReport, format: &OutputFormat, no_color: bool) -> (r: Rendered)
    ensures
        *format == OutputFormat::Human ==> (r matches Rendered::Text(t) && (exists|
            pieces: Seq<Seq<char>>,
        |
            human::painted_pieces(human::human_segments_of(report@), pieces) && t@
                == crate::text::concat_all(pieces)) && (no_color ==> t@ == crate::text::concat_all(
            human::segment_texts(human::human_segments_of(report@)),
        ))),
        *format == OutputFormat::Hcl ==> (r matches Rendered::Text(t) && t@ == hcl::hcl_text(
            report@,
        )),
        *format == OutputFormat::Table ==> (r matches Rendered::Text(t) && (
        report@.drifted_resources.len() == 0 ==> t@ == "No drift detected.\n"@) && (
        report@.drifted_resources.len() > 0 ==> exists|styling: table::TableStyling|
            t@ == table::utf8_table_drawing(
                Some(table::plain_cells(table::header_names())),
                table::report_rows(report@, no_color),
                styling,
            ) + "\n"@ + table::total_line(report@)) && (report@.drifted_resources.len() > 0
            && no_color ==> t@ == table::utf8_table_drawing(
            Some(table::plain_cells(table::header_names())),
            table::report_rows(report@, no_color),
            table::TableStyling::Plain,
        ) + "\n"@ + table::total_line(report@))),
        *format == OutputFormat::Csv ==> (r matches Rendered::Bytes(b) && b@
            == csv_output::csv_document(csv_output::csv_records(report@))),
        *format == OutputFormat::Json ==> r is Json,
{
    match format {
        OutputFormat::Human => Rendered::Text(human::render(report, no_color)),
        OutputFormat::Json => Rendered::Json,
        OutputFormat::Csv => Rendered::Bytes(csv_output::render(report)),
        OutputFormat::Table => Rendered::Text(table::render(report, no_color)),
        OutputFormat::Hcl => Rendered::Text(hcl::render(report)),
    }
}

} // verus!
