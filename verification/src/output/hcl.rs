//! Terraform plan diff-style output.

use vstd::prelude::*;

use crate::drift::types::{
    action_name, AttributeChange, AttributeChangeView, DriftAction, DriftReport,
    DriftReportView, DriftedResource, DriftedResourceView,
};
use crate::text::{
    concat_all, contains_seq, decimal, lemma_concat_all_piece, lemma_concat_take_step,
    lemma_concat_take_zero, lemma_occurs_left, lemma_occurs_right, lemma_occurs_trans, occurs_at,
    push_decimal,
};

verus! {

/// The text of an optional value, or `default` when it is absent.
pub open spec fn opt_or(o: Option<Seq<char>>, default: Seq<char>) -> Seq<char> {
    match o {
        Some(v) => v,
        None => default,
    }
}

/// The diff sign of an action.
pub open spec fn hcl_action_prefix(a: DriftAction) -> Seq<char> {
    match a {
        DriftAction::Update => "~"@,
        DriftAction::Delete => "-"@,
        DriftAction::Create => "+"@,
        DriftAction::Replace => "-/+"@,
    }
}

/// The diff sign of an attribute change, from which sides it has.
pub open spec fn hcl_change_marker(a: AttributeChangeView) -> Seq<char> {
    if a.before is Some && a.after is Some {
        "~"@
    } else if a.before is None && a.after is Some {
        "+"@
    } else if a.before is Some && a.after is None {
        "-"@
    } else {
        "?"@
    }
}

/// The line of one attribute change.
pub open spec fn hcl_change(a: AttributeChangeView) -> Seq<char> {
    if a.sensitive {
        "  "@ + hcl_change_marker(a) + " "@ + a.path + " = (sensitive) -> (sensitive)\n"@
    } else {
        "  "@ + hcl_change_marker(a) + " "@ + a.path + " = \""@ + opt_or(a.before, "null"@)
            + "\" -> \""@ + opt_or(a.after, "null"@) + "\"\n"@
    }
}

/// The block of one resource.
pub open spec fn hcl_resource(r: DriftedResourceView) -> Seq<char> {
    "# "@ + hcl_action_prefix(r.action) + " resource \""@ + r.resource_type + "\" \""@ + r.name
        + "\"\n"@ + "resource \""@ + r.resource_type + "\" \""@ + r.name + "\" {\n"@
        + "  # address: "@ + r.address + "\n"@ + "  # action:  "@ + action_name(r.action)
        + "\n"@ + concat_all(
        r.attribute_changes.map_values(|a: AttributeChangeView| hcl_change(a)),
    ) + "}\n"@ + "\n"@
}

/// The whole HCL-style report.
pub open spec fn hcl_text(report: DriftReportView) -> Seq<char> {
    if report.drifted_resources.len() == 0 {
        "# No drift detected.\n"@
    } else {
        "# Drift report: "@ + decimal(report.summary.total_drifted as nat)
            + " resource(s) drifted\n"@ + match report.terraform_version {
            Some(v) => "# Terraform version: "@ + v + "\n"@,
            None => Seq::<char>::empty(),
        } + "\n"@ + concat_all(
            report.drifted_resources.map_values(|r: DriftedResourceView| hcl_resource(r)),
        )
    }
}

/// The line of each attribute change occurs in the block of its resource.
proof fn lemma_change_in_resource(r: DriftedResourceView, j: int)
    requires
        0 <= j < r.attribute_changes.len(),
    ensures
        contains_seq(hcl_resource(r), hcl_change(r.attribute_changes[j])),
{
    let a = r.attribute_changes[j];
    let lines = r.attribute_changes.map_values(|x: AttributeChangeView| hcl_change(x));
    let c = concat_all(lines);
    assert(lines[j] == hcl_change(a));
    lemma_concat_all_piece(lines, j);
    let k1 = concat_all(lines.take(j)).len() as int;
    let p = "# "@ + hcl_action_prefix(r.action) + " resource \""@ + r.resource_type + "\" \""@
        + r.name + "\"\n"@ + "resource \""@ + r.resource_type + "\" \""@ + r.name + "\" {\n"@
        + "  # address: "@ + r.address + "\n"@ + "  # action:  "@ + action_name(r.action) + "\n"@;
    let res = hcl_resource(r);
    assert(res == p + c + "}\n"@ + "\n"@);
    lemma_occurs_right(p, c);
    lemma_occurs_left(p + c, "}\n"@);
    lemma_occurs_left(p + c + "}\n"@, "\n"@);
    lemma_occurs_trans(p + c + "}\n"@, p + c, c, 0, p.len() as int);
    lemma_occurs_trans(res, p + c + "}\n"@, c, 0, p.len() as int);
    lemma_occurs_trans(res, c, hcl_change(a), p.len() as int, k1);
}

/// The block of each reported resource occurs in the HCL report.
proof fn lemma_resource_in_report(report: DriftReportView, i: int)
    requires
        0 <= i < report.drifted_resources.len(),
    ensures
        contains_seq(hcl_text(report), hcl_resource(report.drifted_resources[i])),
{
    let rs = report.drifted_resources;
    let blocks = rs.map_values(|x: DriftedResourceView| hcl_resource(x));
    let cb = concat_all(blocks);
    assert(blocks[i] == hcl_resource(rs[i]));
    lemma_concat_all_piece(blocks, i);
    let k2 = concat_all(blocks.take(i)).len() as int;
    let h = "# Drift report: "@ + decimal(report.summary.total_drifted as nat)
        + " resource(s) drifted\n"@ + match report.terraform_version {
        Some(v) => "# Terraform version: "@ + v + "\n"@,
        None => Seq::<char>::empty(),
    } + "\n"@;
    assert(hcl_text(report) == h + cb);
    lemma_occurs_right(h, cb);
    lemma_occurs_trans(h + cb, cb, hcl_resource(rs[i]), h.len() as int, k2);
}

/// Every attribute change of every reported resource has its line in the
/// HCL report: its marker (`~` when it has a value before and after, `+`
/// when only after, `-` when only before), its path, and its two values,
/// `null` standing for an absent one, or `(sensitive)` for both when the
/// change is sensitive.
pub proof fn law_hcl_line_per_change(report: DriftReportView, i: int, j: int)
    requires
        0 <= i < report.drifted_resources.len(),
        0 <= j < report.drifted_resources[i].attribute_changes.len(),
    ensures
        ({
            let a = report.drifted_resources[i].attribute_changes[j];
            let marker = match (a.before, a.after) {
                (Some(_), Some(_)) => "~"@,
                (None, Some(_)) => "+"@,
                (Some(_), None) => "-"@,
                (None, None) => "?"@,
            };
            let before = match a.before {
                Some(v) => v,
                None => "null"@,
            };
            let after = match a.after {
                Some(v) => v,
                None => "null"@,
            };
            contains_seq(
                hcl_text(report),
                if a.sensitive {
                    "  "@ + marker + " "@ + a.path + " = (sensitive) -> (sensitive)\n"@
                } else {
                    "  "@ + marker + " "@ + a.path + " = \""@ + before + "\" -> \""@ + after
                        + "\"\n"@
                },
            )
        }),
{
    let r = report.drifted_resources[i];
    let a = r.attribute_changes[j];
    lemma_change_in_resource(r, j);
    lemma_resource_in_report(report, i);
    let res = hcl_resource(r);
    let k = choose|k: int| occurs_at(res, hcl_change(a), k);
    let t = hcl_text(report);
    let m = choose|m: int| occurs_at(t, res, m);
    lemma_occurs_trans(t, res, hcl_change(a), m, k);
}

fn push_change(out: &mut String, attr: &AttributeChange)
    ensures
        final(out)@ == old(out)@ + hcl_change(attr@),
{
    let marker = match (&attr.before, &attr.after) {
        (Some(_), Some(_)) => "~",
        (None, Some(_)) => "+",
        (Some(_), None) => "-",
        (None, None) => "?",
    };
    let ghost start = out@;
    out.push_str("  ");
    out.push_str(marker);
    out.push_str(" ");
    out.push_str(attr.path.as_str());
    if attr.sensitive {
        out.push_str(" = (sensitive) -> (sensitive)\n");
    } else {
        out.push_str(" = \"");
        match &attr.before {
            Some(b) => out.push_str(b.as_str()),
            None => out.push_str("null"),
        }
        out.push_str("\" -> \"");
        match &attr.after {
            Some(a) => out.push_str(a.as_str()),
            None => out.push_str("null"),
        }
        out.push_str("\"\n");
    }
    assert(out@ =~= start + hcl_change(attr@));
}

fn push_resource(out: &mut String, resource: &DriftedResource)
    ensures
        final(out)@ == old(out)@ + hcl_resource(resource@),
{
    let ghost start = out@;
    let prefix = match resource.action {
        DriftAction::Update => "~",
        DriftAction::Delete => "-",
        DriftAction::Create => "+",
        DriftAction::Replace => "-/+",
    };
    out.push_str("# ");
    out.push_str(prefix);
    out.push_str(" resource \"");
    out.push_str(resource.resource_type.as_str());
    out.push_str("\" \"");
    out.push_str(resource.name.as_str());
    out.push_str("\"\n");
    out.push_str("resource \"");
    out.push_str(resource.resource_type.as_str());
    out.push_str("\" \"");
    out.push_str(resource.name.as_str());
    out.push_str("\" {\n");
    out.push_str("  # address: ");
    out.push_str(resource.address.as_str());
    out.push_str("\n");
    out.push_str("  # action:  ");
    let action = resource.action.to_string();
    out.push_str(action.as_str());
    out.push_str("\n");
    let ghost head = out@;
    let ghost lines = resource@.attribute_changes.map_values(|a: AttributeChangeView| hcl_change(a));
    let n = resource.attribute_changes.len();
    proof {
        lemma_concat_take_zero(lines);
    }
    assert(out@ =~= head + concat_all(lines.take(0)));
    for i in 0..n
        invariant
            n == resource.attribute_changes@.len(),
            lines == resource@.attribute_changes.map_values(|a: AttributeChangeView| hcl_change(a)),
            out@ == head + concat_all(lines.take(i as int)),
    {
        proof {
            lemma_concat_take_step(lines, i as int);
        }
        assert(lines[i as int] == hcl_change(resource.attribute_changes@[i as int]@));
        push_change(out, &resource.attribute_changes[i]);
        assert(out@ =~= head + concat_all(lines.take(i + 1)));
    }
    assert(lines.take(n as int) =~= lines);
    out.push_str("}\n");
    out.push_str("\n");
    assert(out@ =~= start + hcl_resource(resource@));
}

/// Renders the report as Terraform plan diff-style text.
pub fn render(report: &DriftReport) -> (r: String)
    ensures
        r@ == hcl_text(report@),
{
    let mut out = String::new();
    if report.drifted_resources.len() == 0 {
        out.push_str("# No drift detected.\n");
        assert(out@ =~= hcl_text(report@));
        return out;
    }
    out.push_str("# Drift report: ");
    push_decimal(&mut out, report.summary.total_drifted);
    out.push_str(" resource(s) drifted\n");
    match &report.terraform_version {
        Some(ver) => {
            out.push_str("# Terraform version: ");
            out.push_str(ver.as_str());
            out.push_str("\n");
        },
        None => {},
    }
    out.push_str("\n");
    let ghost head = out@;
    let ghost blocks = report@.drifted_resources.map_values(
        |r: DriftedResourceView| hcl_resource(r),
    );
    let n = report.drifted_resources.len();
    proof {
        lemma_concat_take_zero(blocks);
    }
    assert(out@ =~= head + concat_all(blocks.take(0)));
    for i in 0..n
        invariant
            n == report.drifted_resources@.len(),
            blocks == report@.drifted_resources.map_values(
                |r: DriftedResourceView| hcl_resource(r),
            ),
            out@ == head + concat_all(blocks.take(i as int)),
    {
        proof {
            lemma_concat_take_step(blocks, i as int);
        }
        assert(blocks[i as int] == hcl_resource(report.drifted_resources@[i as int]@));
        push_resource(&mut out, &report.drifted_resources[i]);
        assert(out@ =~= head + concat_all(blocks.take(i + 1)));
    }
    assert(blocks.take(n as int) =~= blocks);
    assert(out@ =~= hcl_text(report@));
    out
}

} // verus!
