//! Flat CSV output: one row per attribute change.

use vstd::prelude::*;

use crate::drift::types::{
    action_name, source_name, AttributeChangeView, DriftReport,
    DriftReportView, DriftedResource, DriftedResourceView,
};
use crate::output::hcl::opt_or;
use crate::text::{string_of, strings_view};

verus! {

/// The view of rows of strings.
pub open spec fn rows_view(rows: Seq<Vec<String>>) -> Seq<Seq<Seq<char>>> {
    rows.map_values(|r: Vec<String>| strings_view(r@))
}

/// A `csv::Writer` with the default settings, writing into a byte vector.
#[verifier::external_body]
pub struct CsvWriter {
    inner: csv::Writer<Vec<u8>>,
}

/// The records that a CSV writer has been given, each as the texts of its
/// fields.
pub uninterp spec fn csv_written(w: CsvWriter) -> Seq<Seq<Seq<char>>>;

/// The bytes that a default `csv::Writer` writes for these records.
pub uninterp spec fn csv_document(rows: Seq<Seq<Seq<char>>>) -> Seq<u8>;

/// Calls `csv::Writer::from_writer` on an empty byte vector: a writer with
/// the default settings and nothing written.
#[verifier::external_body]
fn csv_writer_new() -> (w: CsvWriter)
    ensures
        csv_written(w) == Seq::<Seq<Seq<char>>>::empty(),
{
    CsvWriter { inner: csv::Writer::from_writer(Vec::new()) }
}

/// Calls `Writer::write_record`. The writer is not flexible, so a record
/// must have as many fields as the first one; writing into a vector does
/// not fail otherwise. The record is then written.
#[verifier::external_body]
fn csv_write_record(w: &mut CsvWriter, record: &Vec<String>)
    requires
        csv_written(*old(w)).len() == 0 || csv_written(*old(w))[0].len() == record@.len(),
    ensures
        csv_written(*final(w)) == csv_written(*old(w)).push(strings_view(record@)),
{
    let _ = w.inner.write_record(record);
}

/// Calls `Writer::into_inner`, which flushes the writer and hands back the
/// vector: the CSV document of the records written. Flushing into a vector
/// does not fail.
#[verifier::external_body]
fn csv_finish(w: CsvWriter) -> (r: Option<Vec<u8>>)
    ensures
        r is Some,
        r matches Some(bytes) ==> bytes@ == csv_document(csv_written(w)),
{
    w.inner.into_inner().ok()
}

/// The text of a boolean.
pub open spec fn bool_text(b: bool) -> Seq<char> {
    if b {
        "true"@
    } else {
        "false"@
    }
}

/// The column names.
pub open spec fn csv_header() -> Seq<Seq<char>> {
    seq![
        "address"@,
        "resource_type"@,
        "action"@,
        "attribute_path"@,
        "before"@,
        "after"@,
        "sensitive"@,
        "source"@,
    ]
}

/// The row of one attribute change of a resource.
pub open spec fn change_row(r: DriftedResourceView, a: AttributeChangeView) -> Seq<Seq<char>> {
    seq![
        r.address,
        r.resource_type,
        action_name(r.action),
        a.path,
        opt_or(a.before, Seq::empty()),
        opt_or(a.after, Seq::empty()),
        bool_text(a.sensitive),
        source_name(r.source),
    ]
}

/// The rows of one resource: one per attribute change, or a single row
/// with empty attribute columns when it has none.
pub open spec fn resource_rows(r: DriftedResourceView) -> Seq<Seq<Seq<char>>> {
    if r.attribute_changes.len() == 0 {
        seq![
            seq![
                r.address,
                r.resource_type,
                action_name(r.action),
                Seq::empty(),
                Seq::empty(),
                Seq::empty(),
                "false"@,
                source_name(r.source),
            ],
        ]
    } else {
        r.attribute_changes.map_values(|a: AttributeChangeView| change_row(r, a))
    }
}

/// The rows of the resources, in order.
pub open spec fn all_resource_rows(rs: Seq<DriftedResourceView>) -> Seq<Seq<Seq<char>>>
    decreases rs.len(),
{
    if rs.len() == 0 {
        Seq::empty()
    } else {
        all_resource_rows(rs.drop_last()) + resource_rows(rs.last())
    }
}

/// The records of the CSV report: the header, then the rows of every
/// resource.
pub open spec fn csv_records(report: DriftReportView) -> Seq<Seq<Seq<char>>> {
    seq![csv_header()] + all_resource_rows(report.drifted_resources)
}

/// Every row of the resources has the eight columns of the header.
proof fn lemma_resource_rows_width(rs: Seq<DriftedResourceView>)
    ensures
        forall|i: int| 0 <= i < all_resource_rows(rs).len() ==> (#[trigger] all_resource_rows(rs)[i]).len() == 8,
    decreases rs.len(),
{
    if rs.len() > 0 {
        lemma_resource_rows_width(rs.drop_last());
        let front = all_resource_rows(rs.drop_last());
        let last = resource_rows(rs.last());
        assert forall|i: int| 0 <= i < (front + last).len() implies (#[trigger] (front + last)[i]).len() == 8 by {
            if i >= front.len() {
                assert((front + last)[i] == last[i - front.len()]);
            }
        }
    }
}

/// Every CSV record, the header included, has the same eight columns.
pub proof fn law_csv_records_have_eight_fields(report: DriftReportView)
    ensures
        forall|i: int| 0 <= i < csv_records(report).len() ==> (#[trigger] csv_records(report)[i]).len() == 8,
{
    lemma_resource_rows_width(report.drifted_resources);
    let rows = all_resource_rows(report.drifted_resources);
    assert forall|i: int| 0 <= i < csv_records(report).len() implies (#[trigger] csv_records(report)[i]).len() == 8 by {
        if i > 0 {
            assert(csv_records(report)[i] == rows[i - 1]);
        }
    }
}

/// Every row of the resource at `i` is among the rows of all resources.
proof fn lemma_all_rows_include(rs: Seq<DriftedResourceView>, i: int, row: Seq<Seq<char>>)
    requires
        0 <= i < rs.len(),
        resource_rows(rs[i]).contains(row),
    ensures
        all_resource_rows(rs).contains(row),
    decreases rs.len(),
{
    let front = all_resource_rows(rs.drop_last());
    let last = resource_rows(rs.last());
    assert(all_resource_rows(rs) == front + last);
    if i == rs.len() - 1 {
        let k = choose|k: int| 0 <= k < last.len() && last[k] == row;
        assert((front + last)[front.len() + k] == row);
    } else {
        assert(rs.drop_last()[i] == rs[i]);
        lemma_all_rows_include(rs.drop_last(), i, row);
        let k = choose|k: int| 0 <= k < front.len() && front[k] == row;
        assert((front + last)[k] == row);
    }
}

/// Each attribute change of each reported resource has its own CSV record:
/// the resource's address, type, action and source, the change's path, its
/// before value and its after value (each empty where the change has none),
/// and whether it is sensitive. The after column comes from the after value
/// alone.
pub proof fn law_csv_record_per_change(report: DriftReportView, i: int, j: int)
    requires
        0 <= i < report.drifted_resources.len(),
        0 <= j < report.drifted_resources[i].attribute_changes.len(),
    ensures
        ({
            let r = report.drifted_resources[i];
            let a = r.attribute_changes[j];
            let before = match a.before {
                Some(v) => v,
                None => Seq::<char>::empty(),
            };
            let after = match a.after {
                Some(v) => v,
                None => Seq::<char>::empty(),
            };
            let sensitive = if a.sensitive {
                "true"@
            } else {
                "false"@
            };
            csv_records(report).contains(
                seq![
                    r.address,
                    r.resource_type,
                    action_name(r.action),
                    a.path,
                    before,
                    after,
                    sensitive,
                    source_name(r.source),
                ],
            )
        }),
{
    let rs = report.drifted_resources;
    let r = rs[i];
    let a = r.attribute_changes[j];
    let rows = resource_rows(r);
    assert(rows[j] == change_row(r, a));
    assert(rows.contains(change_row(r, a)));
    lemma_all_rows_include(rs, i, change_row(r, a));
    let all = all_resource_rows(rs);
    let k = choose|k: int| 0 <= k < all.len() && all[k] == change_row(r, a);
    assert(csv_records(report)[k + 1] == change_row(r, a));
}

/// A reported resource without attribute changes has one CSV record, whose
/// path, before and after columns are empty and whose sensitive column is
/// `false`.
pub proof fn law_csv_record_for_bare_resource(report: DriftReportView, i: int)
    requires
        0 <= i < report.drifted_resources.len(),
        report.drifted_resources[i].attribute_changes.len() == 0,
    ensures
        ({
            let r = report.drifted_resources[i];
            csv_records(report).contains(
                seq![
                    r.address,
                    r.resource_type,
                    action_name(r.action),
                    Seq::<char>::empty(),
                    Seq::<char>::empty(),
                    Seq::<char>::empty(),
                    "false"@,
                    source_name(r.source),
                ],
            )
        }),
{
    let rs = report.drifted_resources;
    let rows = resource_rows(rs[i]);
    let row = rows[0];
    assert(rows.contains(row));
    lemma_all_rows_include(rs, i, row);
    let all = all_resource_rows(rs);
    let k = choose|k: int| 0 <= k < all.len() && all[k] == row;
    assert(csv_records(report)[k + 1] == row);
}

/// A row of eight fields.
fn row8(
    f0: String,
    f1: String,
    f2: String,
    f3: String,
    f4: String,
    f5: String,
    f6: String,
    f7: String,
) -> (r: Vec<String>)
    ensures
        strings_view(r@) == seq![f0@, f1@, f2@, f3@, f4@, f5@, f6@, f7@],
{
    let mut r: Vec<String> = Vec::new();
    r.push(f0);
    r.push(f1);
    r.push(f2);
    r.push(f3);
    r.push(f4);
    r.push(f5);
    r.push(f6);
    r.push(f7);
    assert(strings_view(r@) =~= seq![f0@, f1@, f2@, f3@, f4@, f5@, f6@, f7@]);
    r
}

fn opt_text(o: &Option<String>) -> (r: String)
    ensures
        r@ == opt_or(o.deep_view(), Seq::empty()),
{
    match o {
        Some(s) => s.clone(),
        None => String::new(),
    }
}

fn push_resource_rows(rows: &mut Vec<Vec<String>>, resource: &DriftedResource)
    ensures
        rows_view(final(rows)@) == rows_view(old(rows)@) + resource_rows(resource@),
{
    let ghost start = rows_view(rows@);
    if resource.attribute_changes.len() == 0 {
        // Resource-level entry with no attribute details (e.g., delete)
        let row = row8(
            resource.address.clone(),
            resource.resource_type.clone(),
            resource.action.to_string(),
            String::new(),
            String::new(),
            String::new(),
            string_of("false"),
            resource.source.to_string(),
        );
        rows.push(row);
        assert(rows_view(rows@) =~= start + resource_rows(resource@));
        return;
    }
    let n = resource.attribute_changes.len();
    let ghost all = resource_rows(resource@);
    assert(start + all.take(0) =~= start);
    for i in 0..n
        invariant
            n == resource.attribute_changes@.len(),
            n > 0,
            all == resource_rows(resource@),
            rows_view(rows@) == start + all.take(i as int),
    {
        let attr = &resource.attribute_changes[i];
        let sensitive = if attr.sensitive {
            string_of("true")
        } else {
            string_of("false")
        };
        let row = row8(
            resource.address.clone(),
            resource.resource_type.clone(),
            resource.action.to_string(),
            attr.path.clone(),
            opt_text(&attr.before),
            opt_text(&attr.after),
            sensitive,
            resource.source.to_string(),
        );
        assert(strings_view(row@) == change_row(resource@, attr@));
        assert(all[i as int] == change_row(resource@, resource@.attribute_changes[i as int]));
        let ghost prev = rows_view(rows@);
        rows.push(row);
        assert(rows_view(rows@) =~= prev.push(strings_view(row@)));
        assert(all.take(i + 1) =~= all.take(i as int).push(all[i as int]));
    }
    assert(all.take(n as int) =~= all);
}

/// The records of the CSV report, header first.
pub fn csv_rows(report: &DriftReport) -> (r: Vec<Vec<String>>)
    ensures
        rows_view(r@) == csv_records(report@),
{
    let mut rows: Vec<Vec<String>> = Vec::new();
    rows.push(
        row8(
            string_of("address"),
            string_of("resource_type"),
            string_of("action"),
            string_of("attribute_path"),
            string_of("before"),
            string_of("after"),
            string_of("sensitive"),
            string_of("source"),
        ),
    );
    let ghost rs = report@.drifted_resources;
    assert(rows_view(rows@) =~= seq![csv_header()] + all_resource_rows(rs.take(0)));
    let n = report.drifted_resources.len();
    for i in 0..n
        invariant
            n == rs.len(),
            rs == report@.drifted_resources,
            rows_view(rows@) == seq![csv_header()] + all_resource_rows(rs.take(i as int)),
    {
        assert(rs.take(i + 1).drop_last() =~= rs.take(i as int));
        assert(rs[i as int] == report.drifted_resources@[i as int]@);
        push_resource_rows(&mut rows, &report.drifted_resources[i]);
        assert(rows_view(rows@) =~= seq![csv_header()] + all_resource_rows(rs.take(i + 1)));
    }
    assert(rs.take(n as int) =~= rs);
    rows
}

/// Renders the report as CSV bytes. The records all have eight fields, so
/// the CSV writer takes every one of them.
pub fn render(report: &DriftReport) -> (r: Vec<u8>)
    ensures
        r@ == csv_document(csv_records(report@)),
{
    let rows = csv_rows(report);
    let ghost rv = rows_view(rows@);
    proof {
        law_csv_records_have_eight_fields(report@);
    }
    let mut w = csv_writer_new();
    let n = rows.len();
    assert(rv.take(0) =~= Seq::<Seq<Seq<char>>>::empty());
    for i in 0..n
        invariant
            n == rows@.len(),
            rv == rows_view(rows@),
            rv == csv_records(report@),
            forall|k: int| 0 <= k < rv.len() ==> (#[trigger] rv[k]).len() == 8,
            csv_written(w) == rv.take(i as int),
    {
        assert(rv[i as int] == strings_view(rows@[i as int]@));
        assert(i > 0 ==> csv_written(w)[0] == rv[0]);
        csv_write_record(&mut w, &rows[i]);
        assert(csv_written(w) =~= rv.take(i + 1));
    }
    assert(rv.take(n as int) =~= rv);
    match csv_finish(w) {
        Some(bytes) => bytes,
        None => {
            proof {
                assert(false);
            }
            Vec::new()
        },
    }
}

} // verus!
