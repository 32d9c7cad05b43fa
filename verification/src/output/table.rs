//! Table output, drawn with `comfy_table`.

use vstd::prelude::*;

use crate::drift::types::{
    action_name, source_name, AttributeChangeView, DriftAction, DriftReport, DriftReportView,
    DriftedResource, DriftedResourceView,
};
use crate::text::{decimal, join_with, push_decimal, string_of, strings_view};

verus! {

#[verifier::external_type_specification]
#[verifier::external_body]
pub struct ExTable(comfy_table::Table);

#[verifier::external_type_specification]
#[verifier::external_body]
pub struct ExCell(comfy_table::Cell);

/// The colour of an action cell.
#[derive(PartialEq, Eq, Structural, Clone, Copy, Debug)]
pub enum CellColor {
    Yellow,
    Red,
    Green,
    Magenta,
}

/// What a cell holds: its text (as `Cell::content` gives it) and the
/// colour of its text.
pub uninterp spec fn cell_view(c: comfy_table::Cell) -> (Seq<char>, Option<CellColor>);

/// The cells of a table's body, row by row, each as `cell_view` gives it.
pub uninterp spec fn table_body(t: comfy_table::Table) -> Seq<Seq<(Seq<char>, Option<CellColor>)>>;

/// The cells of a table's header, if it has one.
pub uninterp spec fn table_header(t: comfy_table::Table) -> Option<Seq<(Seq<char>, Option<CellColor>)>>;

/// The cell has `Cell::new`'s settings (alignment, delimiter, background,
/// attributes), whatever its text and foreground colour.
pub uninterp spec fn cell_default_settings(c: comfy_table::Cell) -> bool;

/// The table has `Table::new`'s settings (content arrangement, width,
/// delimiter, truncation, columns, terminal handling), whatever its
/// drawing characters, header and rows, and each of its cells has
/// `Cell::new`'s settings.
pub uninterp spec fn table_default_settings(t: comfy_table::Table) -> bool;

/// The table is drawn with the characters of the `UTF8_FULL` preset.
pub uninterp spec fn table_style_utf8_full(t: comfy_table::Table) -> bool;

/// How `comfy_table` draws the colours of cells.
#[derive(PartialEq, Eq, Structural, Clone, Copy, Debug)]
pub enum TableStyling {
    /// Not styled: standard output is no terminal.
    Plain,
    /// Styled: coloured cells in escape sequences with their colour codes.
    Coloured,
    /// Styled while `crossterm` leaves colour codes out (the environment
    /// sets `NO_COLOR`): coloured cells in escape sequences without them.
    ColourSuppressed,
}

/// What `Table`'s `Display` gives for a table with the `UTF8_FULL` preset
/// and otherwise the default settings, with this header and these rows,
/// drawn with the given styling.
pub uninterp spec fn utf8_table_drawing(
    header: Option<Seq<(Seq<char>, Option<CellColor>)>>,
    body: Seq<Seq<(Seq<char>, Option<CellColor>)>>,
    styling: TableStyling,
) -> Seq<char>;

/// No cell of the header or the rows has a colour.
pub open spec fn uncoloured(
    header: Option<Seq<(Seq<char>, Option<CellColor>)>>,
    body: Seq<Seq<(Seq<char>, Option<CellColor>)>>,
) -> bool {
    &&& header matches Some(h) ==> forall|j: int| 0 <= j < h.len() ==> (#[trigger] h[j]).1 is None
    &&& forall|i: int, j: int|
        0 <= i < body.len() && 0 <= j < body[i].len() ==> (#[trigger] body[i][j]).1 is None
}

/// The cells that show these texts, without colour.
pub open spec fn plain_cells(texts: Seq<Seq<char>>) -> Seq<(Seq<char>, Option<CellColor>)> {
    texts.map_values(|t: Seq<char>| (t, None::<CellColor>))
}

/// Calls `comfy_table::Table::new`: a table with the default settings,
/// without header or rows.
#[verifier::external_body]
fn table_new() -> (t: comfy_table::Table)
    ensures
        table_body(t) == Seq::<Seq<(Seq<char>, Option<CellColor>)>>::empty(),
        table_header(t) is None,
        table_default_settings(t),
{
    comfy_table::Table::new()
}

/// Calls `Table::load_preset` with the `UTF8_FULL` preset, which sets the
/// characters the table is drawn with and leaves its settings and cells
/// alone.
#[verifier::external_body]
fn table_load_utf8_full(table: &mut comfy_table::Table)
    ensures
        table_body(*final(table)) == table_body(*old(table)),
        table_header(*final(table)) == table_header(*old(table)),
        table_default_settings(*final(table)) == table_default_settings(*old(table)),
        table_style_utf8_full(*final(table)),
{
    table.load_preset(comfy_table::presets::UTF8_FULL);
}

/// Calls `Table::set_header` with the given column names, each made a
/// cell by `Cell::new`; the body, the drawing characters and the settings
/// stay as they were (the columns it adds have the default settings).
#[verifier::external_body]
fn table_set_header(table: &mut comfy_table::Table, header: &Vec<String>)
    ensures
        table_header(*final(table)) == Some(plain_cells(strings_view(header@))),
        table_body(*final(table)) == table_body(*old(table)),
        table_default_settings(*final(table)) == table_default_settings(*old(table)),
        table_style_utf8_full(*final(table)) == table_style_utf8_full(*old(table)),
{
    table.set_header(header.clone());
}

/// Calls `comfy_table::Cell::new` on the text: a cell whose content is the
/// text, split at line breaks and joined again, without colour and with
/// the default settings.
#[verifier::external_body]
fn cell_new(text: &String) -> (c: comfy_table::Cell)
    ensures
        cell_view(c) == (text@, None::<CellColor>),
        cell_default_settings(c),
{
    comfy_table::Cell::new(text)
}

/// Calls `Cell::fg` with the `comfy_table::Color` of the same name: the
/// cell's text and settings stay, its colour is set.
#[verifier::external_body]
fn cell_fg(cell: comfy_table::Cell, color: CellColor) -> (c: comfy_table::Cell)
    ensures
        cell_view(c) == (cell_view(cell).0, Some(color)),
        cell_default_settings(c) == cell_default_settings(cell),
{
    cell.fg(match color {
        CellColor::Yellow => comfy_table::Color::Yellow,
        CellColor::Red => comfy_table::Color::Red,
        CellColor::Green => comfy_table::Color::Green,
        CellColor::Magenta => comfy_table::Color::Magenta,
    })
}

/// Calls `Table::add_row` with the cells: they become the last row of the
/// body; the header and the drawing characters stay as they were, and the
/// table keeps the default settings when the cells have them.
#[verifier::external_body]
fn table_add_row(table: &mut comfy_table::Table, cells: Vec<comfy_table::Cell>)
    ensures
        table_body(*final(table)) == table_body(*old(table)).push(
            cells@.map_values(|c: comfy_table::Cell| cell_view(c)),
        ),
        table_header(*final(table)) == table_header(*old(table)),
        table_default_settings(*final(table)) == (table_default_settings(*old(table)) && forall|
            i: int,
        |
            0 <= i < cells@.len() ==> cell_default_settings(#[trigger] cells@[i])),
        table_style_utf8_full(*final(table)) == table_style_utf8_full(*old(table)),
{
    table.add_row(cells);
}

/// The drawn table, as `Table`'s `Display` gives it. For a table with the
/// `UTF8_FULL` preset and default settings, it is the drawing of its header
/// and rows. How cell colours are drawn depends on whether standard output
/// is a terminal and on the environment's `NO_COLOR`, which is left open;
/// a table without coloured cells is drawn the same in every case, plain.
#[verifier::external_body]
fn table_text(table: &comfy_table::Table) -> (r: String)
    ensures
        table_default_settings(*table) && table_style_utf8_full(*table) ==> exists|
            styling: TableStyling,
        | r@ == utf8_table_drawing(table_header(*table), table_body(*table), styling),
        table_default_settings(*table) && table_style_utf8_full(*table) && uncoloured(
            table_header(*table),
            table_body(*table),
        ) ==> r@ == utf8_table_drawing(
            table_header(*table),
            table_body(*table),
            TableStyling::Plain,
        ),
{
    table.to_string()
}

/// One row of the table.
pub struct TableRow {
    pub address: String,
    pub resource_type: String,
    pub action: String,
    pub changed_attributes: String,
    pub source: String,
    /// The colour of the action cell, if any.
    pub action_color: Option<CellColor>,
}

/// The colour of an action.
pub open spec fn action_color(a: DriftAction) -> CellColor {
    match a {
        DriftAction::Update => CellColor::Yellow,
        DriftAction::Delete => CellColor::Red,
        DriftAction::Create => CellColor::Green,
        DriftAction::Replace => CellColor::Magenta,
    }
}

/// The changed attributes column: the paths joined by `, `, or `-`.
pub open spec fn changed_column(r: DriftedResourceView) -> Seq<char> {
    if r.attribute_changes.len() == 0 {
        "-"@
    } else {
        join_with(r.attribute_changes.map_values(|a: AttributeChangeView| a.path), ", "@)
    }
}

/// The changed attributes column of a resource: `-` when it has no
/// attribute change, the one path when it has one, and otherwise the
/// column of its earlier changes, a comma and a space, and the last path.
pub proof fn law_changed_column(r: DriftedResourceView)
    ensures
        r.attribute_changes.len() == 0 ==> changed_column(r) == "-"@,
        r.attribute_changes.len() == 1 ==> changed_column(r) == r.attribute_changes[0].path,
        r.attribute_changes.len() >= 2 ==> changed_column(r) == changed_column(
            DriftedResourceView { attribute_changes: r.attribute_changes.drop_last(), ..r },
        ) + ", "@ + r.attribute_changes.last().path,
{
    let paths = r.attribute_changes.map_values(|a: AttributeChangeView| a.path);
    if r.attribute_changes.len() >= 1 {
        assert(paths[0] == r.attribute_changes[0].path);
    }
    if r.attribute_changes.len() >= 2 {
        let init = r.attribute_changes.drop_last();
        assert(init.map_values(|a: AttributeChangeView| a.path) =~= paths.drop_last());
        assert(paths.last() == r.attribute_changes.last().path);
    }
}

/// The row shows the resource.
pub open spec fn row_shows(row: TableRow, r: DriftedResourceView, no_color: bool) -> bool {
    &&& row.address@ == r.address
    &&& row.resource_type@ == r.resource_type
    &&& row.action@ == action_name(r.action)
    &&& row.changed_attributes@ == changed_column(r)
    &&& row.source@ == source_name(r.source)
    &&& row.action_color == if no_color {
        None
    } else {
        Some(action_color(r.action))
    }
}

/// The last line under the table.
pub open spec fn total_line(report: DriftReportView) -> Seq<char> {
    "\nTotal: "@ + decimal(report.summary.total_drifted as nat) + " drifted resource(s)\n"@
}

fn changed_text(resource: &DriftedResource) -> (r: String)
    ensures
        r@ == changed_column(resource@),
{
    let n = resource.attribute_changes.len();
    if n == 0 {
        return string_of("-");
    }
    let ghost paths = resource@.attribute_changes.map_values(|a: AttributeChangeView| a.path);
    let mut out = String::new();
    for i in 0..n
        invariant
            n == paths.len(),
            n == resource.attribute_changes@.len(),
            paths == resource@.attribute_changes.map_values(|a: AttributeChangeView| a.path),
            i == 0 ==> out@.len() == 0,
            i > 0 ==> out@ == join_with(paths.take(i as int), ", "@),
    {
        assert(paths[i as int] == resource.attribute_changes@[i as int].path@);
        if i > 0 {
            out.push_str(", ");
        }
        out.push_str(resource.attribute_changes[i].path.as_str());
        assert(paths.take(i + 1).drop_last() =~= paths.take(i as int));
        if i == 0 {
            assert(out@ =~= join_with(paths.take(1), ", "@));
        } else {
            assert(out@ =~= join_with(paths.take(i + 1), ", "@));
        }
    }
    assert(paths.take(n as int) =~= paths);
    out
}

/// The rows of the table, one per resource.
pub fn table_rows(report: &DriftReport, no_color: bool) -> (r: Vec<TableRow>)
    ensures
        r@.len() == report@.drifted_resources.len(),
        forall|i: int|
            0 <= i < r@.len() ==> row_shows(#[trigger] r@[i], report@.drifted_resources[i], no_color),
{
    let mut rows: Vec<TableRow> = Vec::new();
    let n = report.drifted_resources.len();
    for i in 0..n
        invariant
            n == report.drifted_resources@.len(),
            rows@.len() == i,
            forall|k: int|
                0 <= k < i ==> row_shows(
                    #[trigger] rows@[k],
                    report@.drifted_resources[k],
                    no_color,
                ),
    {
        let resource = &report.drifted_resources[i];
        let action_color = if no_color {
            None
        } else {
            Some(
                match resource.action {
                    DriftAction::Update => CellColor::Yellow,
                    DriftAction::Delete => CellColor::Red,
                    DriftAction::Create => CellColor::Green,
                    DriftAction::Replace => CellColor::Magenta,
                },
            )
        };
        let row = TableRow {
            address: resource.address.clone(),
            resource_type: resource.resource_type.clone(),
            action: resource.action.to_string(),
            changed_attributes: changed_text(resource),
            source: resource.source.to_string(),
            action_color,
        };
        assert(report@.drifted_resources[i as int] == resource@);
        rows.push(row);
    }
    rows
}

/// The column names.
pub open spec fn header_names() -> Seq<Seq<char>> {
    seq!["Address"@, "Type"@, "Action"@, "Changed Attributes"@, "Source"@]
}

/// The cells of a resource's row.
pub open spec fn row_cells(r: DriftedResourceView, no_color: bool) -> Seq<
    (Seq<char>, Option<CellColor>),
> {
    seq![
        (r.address, None),
        (r.resource_type, None),
        (action_name(r.action), if no_color {
            None
        } else {
            Some(action_color(r.action))
        }),
        (changed_column(r), None),
        (source_name(r.source), None),
    ]
}

fn header_row() -> (r: Vec<String>)
    ensures
        strings_view(r@) == header_names(),
{
    let mut h: Vec<String> = Vec::new();
    h.push(string_of("Address"));
    h.push(string_of("Type"));
    h.push(string_of("Action"));
    h.push(string_of("Changed Attributes"));
    h.push(string_of("Source"));
    assert(strings_view(h@) =~= header_names());
    h
}

/// The table of the report: the column names as header, and one row per
/// resource.
pub fn build_table(report: &DriftReport, no_color: bool) -> (t: comfy_table::Table)
    ensures
        table_default_settings(t),
        table_style_utf8_full(t),
        table_header(t) == Some(plain_cells(header_names())),
        table_body(t) == report@.drifted_resources.map_values(
            |r: DriftedResourceView| row_cells(r, no_color),
        ),
{
    let mut table = table_new();
    table_load_utf8_full(&mut table);
    table_set_header(&mut table, &header_row());
    let rows = table_rows(report, no_color);
    let ghost rs = report@.drifted_resources;
    let ghost expected = rs.map_values(|r: DriftedResourceView| row_cells(r, no_color));
    let n = rows.len();
    assert(table_body(table) =~= expected.take(0));
    for i in 0..n
        invariant
            n == rows@.len(),
            n == rs.len(),
            rs == report@.drifted_resources,
            expected == rs.map_values(|r: DriftedResourceView| row_cells(r, no_color)),
            forall|k: int| 0 <= k < rows@.len() ==> row_shows(#[trigger] rows@[k], rs[k], no_color),
            table_header(table) == Some(plain_cells(header_names())),
            table_body(table) == expected.take(i as int),
            table_default_settings(table),
            table_style_utf8_full(table),
    {
        let row = &rows[i];
        assert(row_shows(rows@[i as int], rs[i as int], no_color));
        let mut cells: Vec<comfy_table::Cell> = Vec::new();
        cells.push(cell_new(&row.address));
        cells.push(cell_new(&row.resource_type));
        let action_cell = match row.action_color {
            Some(color) => cell_fg(cell_new(&row.action), color),
            None => cell_new(&row.action),
        };
        cells.push(action_cell);
        cells.push(cell_new(&row.changed_attributes));
        cells.push(cell_new(&row.source));
        let ghost prev = table_body(table);
        assert(forall|k: int| 0 <= k < cells@.len() ==> cell_default_settings(#[trigger] cells@[k]));
        table_add_row(&mut table, cells);
        assert(cells@.map_values(|c: comfy_table::Cell| cell_view(c)) =~= expected[i as int]);
        assert(table_body(table) =~= expected.take(i + 1));
    }
    assert(expected.take(n as int) =~= expected);
    table
}

/// The rows of the report's table.
pub open spec fn report_rows(report: DriftReportView, no_color: bool) -> Seq<
    Seq<(Seq<char>, Option<CellColor>)>,
> {
    report.drifted_resources.map_values(|r: DriftedResourceView| row_cells(r, no_color))
}

/// Renders the report as a table followed by the total: the column names
/// as header and one row per resource, drawn by `comfy_table` with the
/// `UTF8_FULL` preset (its styling as the terminal and environment decide;
/// plain with `no_color`).
pub fn render(report: &DriftReport, no_color: bool) -> (r: String)
    ensures
        report@.drifted_resources.len() == 0 ==> r@ == "No drift detected.\n"@,
        report@.drifted_resources.len() > 0 ==> exists|styling: TableStyling|
            r@ == utf8_table_drawing(
                Some(plain_cells(header_names())),
                report_rows(report@, no_color),
                styling,
            ) + "\n"@ + total_line(report@),
        report@.drifted_resources.len() > 0 && no_color ==> r@ == utf8_table_drawing(
            Some(plain_cells(header_names())),
            report_rows(report@, no_color),
            TableStyling::Plain,
        ) + "\n"@ + total_line(report@),
{
    if report.drifted_resources.len() == 0 {
        return string_of("No drift detected.\n");
    }
    let table = build_table(report, no_color);
    let drawn = table_text(&table);
    let ghost styling = choose|styling: TableStyling|
        drawn@ == utf8_table_drawing(table_header(table), table_body(table), styling);
    proof {
        if no_color {
            let h = plain_cells(header_names());
            assert(forall|j: int| 0 <= j < h.len() ==> (#[trigger] h[j]).1 is None);
            let b = report_rows(report@, no_color);
            assert(forall|i: int, j: int|
                0 <= i < b.len() && 0 <= j < b[i].len() ==> (#[trigger] b[i][j]).1 is None);
            assert(uncoloured(table_header(table), table_body(table)));
        }
    }
    let mut out = drawn.clone();
    out.push_str("\n");
    out.push_str("\nTotal: ");
    push_decimal(&mut out, report.summary.total_drifted);
    out.push_str(" drifted resource(s)\n");
    assert(out@ =~= drawn@ + "\n"@ + total_line(report@));
    assert(table_body(table) == report_rows(report@, no_color));
    assert(out@ == utf8_table_drawing(
        Some(plain_cells(header_names())),
        report_rows(report@, no_color),
        styling,
    ) + "\n"@ + total_line(report@));
    out
}

} // verus!
