//! What the `scan` and `parse` commands decide between reading a plan and
//! printing the report: the report itself and the process's exit status.

use vstd::prelude::*;

use crate::cli::CommonArgs;
use crate::config::{copy_strings, Config};
use crate::drift::detector::{detect_drift, drift_report_of};
use crate::drift::types::{DriftReport, DriftReportView};
use crate::filter::engine::{filters_applied, Filters, FiltersView};
use crate::plan::schema::TerraformPlan;

verus! {

/// The filters that the command line asks for.
pub open spec fn requested_filters(common: crate::cli::CommonArgsView) -> FiltersView {
    FiltersView {
        resource_types: common.resource_types,
        resource_names: common.resource_names,
        attributes: common.attributes,
    }
}

/// The filters given by the shared command-line options.
pub fn filters_from_args(common: &CommonArgs) -> (r: Filters)
    ensures
        r@ == requested_filters(common@),
{
    Filters {
        resource_types: copy_strings(&common.resource_types),
        resource_names: copy_strings(&common.resource_names),
        attributes: copy_strings(&common.attributes),
    }
}

/// Detects drift in a plan under the ignore rules of `config`, then keeps
/// what the command-line filters select.
pub fn analyze(plan: &TerraformPlan, config: &Config, common: &CommonArgs) -> (r: DriftReport)
    ensures
        exists|detected: DriftReportView|
            drift_report_of(*plan, config@, detected) && filters_applied(
                requested_filters(common@),
                detected,
                r@,
            ),
{
    let mut report = detect_drift(plan, config);
    let ghost detected = report@;
    let filters = filters_from_args(common);
    filters.apply(&mut report);
    assert(drift_report_of(*plan, config@, detected) && filters_applied(
        requested_filters(common@),
        detected,
        report@,
    ));
    report
}

/// The exit status after a report has been printed.
pub open spec fn exit_status(r: DriftReportView) -> i32 {
    if r.drifted_resources.len() == 0 {
        0
    } else {
        1
    }
}

/// Exit status: 1 if drift was detected, 0 if the infrastructure is clean.
pub fn exit_code(report: &DriftReport) -> (r: i32)
    ensures
        r == exit_status(report@),
{
    if report.drifted_resources.len() == 0 {
        0
    } else {
        1
    }
}

} // verus!
