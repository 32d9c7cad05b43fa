use infradrift::cli::OutputFormat;
use infradrift::drift::types::{
    AttributeChange, DriftAction, DriftReport, DriftSource, DriftSummary, DriftedResource,
};
use infradrift::output::csv_output::{csv_rows, render as render_csv};
use infradrift::output::hcl::render as render_hcl;
use infradrift::output::human::{human_segments, render as render_human, Style};
use infradrift::output::table::{build_table, render as render_table, table_rows, CellColor};
use infradrift::output::{render, Rendered};

fn change(path: &str, before: Option<&str>, after: Option<&str>, sensitive: bool) -> AttributeChange {
    AttributeChange {
        path: path.to_string(),
        before: before.map(|x| x.to_string()),
        after: after.map(|x| x.to_string()),
        sensitive,
    }
}

fn resource(
    rtype: &str,
    name: &str,
    action: DriftAction,
    source: DriftSource,
    changes: Vec<AttributeChange>,
) -> DriftedResource {
    DriftedResource {
        address: format!("{}.{}", rtype, name),
        resource_type: rtype.to_string(),
        name: name.to_string(),
        module_address: None,
        provider: "registry.terraform.io/hashicorp/aws".to_string(),
        action,
        attribute_changes: changes,
        source,
    }
}

fn report(version: Option<&str>, resources: Vec<DriftedResource>) -> DriftReport {
    let mut r = DriftReport {
        terraform_version: version.map(|v| v.to_string()),
        drifted_resources: resources,
        summary: DriftSummary { total_drifted: 0, updates: 0, deletes: 0, creates: 0, replaces: 0 },
    };
    r.recalculate_summary();
    r
}

fn sample() -> DriftReport {
    report(
        Some("1.5.7"),
        vec![
            resource(
                "aws_instance",
                "web",
                DriftAction::Update,
                DriftSource::ResourceDriftKey,
                vec![
                    change("instance_type", Some("t3.micro"), Some("t3.small"), false),
                    change("password", Some("(sensitive)"), Some("(sensitive)"), true),
                ],
            ),
            resource(
                "aws_s3_bucket",
                "logs",
                DriftAction::Delete,
                DriftSource::InferredFromChanges,
                vec![],
            ),
            resource(
                "aws_iam_role",
                "ci",
                DriftAction::Replace,
                DriftSource::InferredFromChanges,
                vec![change("name", None, Some("a,b"), false)],
            ),
        ],
    )
}

#[test]
fn hcl_output_is_exact() {
    let text = render_hcl(&sample());
    let expected = "\
# Drift report: 3 resource(s) drifted
# Terraform version: 1.5.7

# ~ resource \"aws_instance\" \"web\"
resource \"aws_instance\" \"web\" {
  # address: aws_instance.web
  # action:  update
  ~ instance_type = \"t3.micro\" -> \"t3.small\"
  ~ password = (sensitive) -> (sensitive)
}

# - resource \"aws_s3_bucket\" \"logs\"
resource \"aws_s3_bucket\" \"logs\" {
  # address: aws_s3_bucket.logs
  # action:  delete
}

# -/+ resource \"aws_iam_role\" \"ci\"
resource \"aws_iam_role\" \"ci\" {
  # address: aws_iam_role.ci
  # action:  replace
  + name = \"null\" -> \"a,b\"
}

";
    assert_eq!(text, expected);
}

#[test]
fn hcl_output_without_drift_or_version() {
    assert_eq!(render_hcl(&report(Some("1.5.7"), vec![])), "# No drift detected.\n");
    let r = report(
        None,
        vec![resource(
            "a",
            "b",
            DriftAction::Create,
            DriftSource::ResourceDriftKey,
            vec![change("k", Some("1"), None, false), change("q", None, None, false)],
        )],
    );
    let text = render_hcl(&r);
    assert!(text.starts_with("# Drift report: 1 resource(s) drifted\n\n# + resource \"a\" \"b\"\n"));
    assert!(text.contains("  - k = \"1\" -> \"null\"\n"));
    assert!(text.contains("  ? q = \"null\" -> \"null\"\n"));
}

#[test]
fn csv_rows_are_exact() {
    let rows = csv_rows(&sample());
    let expected: Vec<Vec<&str>> = vec![
        vec!["address", "resource_type", "action", "attribute_path", "before", "after", "sensitive", "source"],
        vec!["aws_instance.web", "aws_instance", "update", "instance_type", "t3.micro", "t3.small", "false", "resource_drift"],
        vec!["aws_instance.web", "aws_instance", "update", "password", "(sensitive)", "(sensitive)", "true", "resource_drift"],
        vec!["aws_s3_bucket.logs", "aws_s3_bucket", "delete", "", "", "", "false", "inferred"],
        vec!["aws_iam_role.ci", "aws_iam_role", "replace", "name", "", "a,b", "false", "inferred"],
    ];
    assert_eq!(rows, expected);
}

#[test]
fn csv_bytes_quote_special_fields() {
    let bytes = render_csv(&sample());
    let text = String::from_utf8(bytes).unwrap();
    let expected = "\
address,resource_type,action,attribute_path,before,after,sensitive,source
aws_instance.web,aws_instance,update,instance_type,t3.micro,t3.small,false,resource_drift
aws_instance.web,aws_instance,update,password,(sensitive),(sensitive),true,resource_drift
aws_s3_bucket.logs,aws_s3_bucket,delete,,,,false,inferred
aws_iam_role.ci,aws_iam_role,replace,name,,\"a,b\",false,inferred
";
    assert_eq!(text, expected);
}

#[test]
fn table_rows_show_each_resource() {
    let r = sample();
    let rows = table_rows(&r, false);
    assert_eq!(rows.len(), 3);
    assert_eq!(rows[0].address, "aws_instance.web");
    assert_eq!(rows[0].resource_type, "aws_instance");
    assert_eq!(rows[0].action, "update");
    assert_eq!(rows[0].changed_attributes, "instance_type, password");
    assert_eq!(rows[0].source, "resource_drift");
    assert_eq!(rows[0].action_color, Some(CellColor::Yellow));
    assert_eq!(rows[1].changed_attributes, "-");
    assert_eq!(rows[1].action_color, Some(CellColor::Red));
    assert_eq!(rows[2].action_color, Some(CellColor::Magenta));
    let plain = table_rows(&r, true);
    assert!(plain.iter().all(|row| row.action_color.is_none()));
}

#[test]
fn table_output_has_rows_and_total() {
    let text = render_table(&sample(), true);
    assert!(text.ends_with("\n\nTotal: 3 drifted resource(s)\n"));
    for needle in ["Address", "Changed Attributes", "aws_instance.web", "instance_type, password", "inferred"] {
        assert!(text.contains(needle), "missing {}", needle);
    }
    assert_eq!(render_table(&report(None, vec![]), true), "No drift detected.\n");
}

#[test]
fn human_segments_describe_the_report() {
    let segs = human_segments(&sample());
    let text: String = segs.iter().map(|s| s.text.as_str()).collect();
    let expected = "\
Drift detected: 3 resource(s)
Terraform version: 1.5.7

  ~ update aws_instance.web [drift] (aws_instance)
      instance_type = t3.micro -> t3.small
      password = (sensitive) -> (sensitive)

  - delete aws_s3_bucket.logs [inferred] (aws_s3_bucket)

  -/+ replace aws_iam_role.ci [inferred] (aws_iam_role)
      name = (none) -> a,b

Summary:
  ~ 1 updated
  - 1 deleted
  -/+ 1 replaced
";
    assert_eq!(text, expected);
    assert_eq!(segs[0].style, Style::RedBold);
    assert!(segs.iter().any(|s| s.text == "~ update" && s.style == Style::Yellow));
    assert!(segs.iter().any(|s| s.text == "[inferred]" && s.style == Style::Dimmed));
}

#[test]
fn human_output_without_colour_is_plain() {
    let readme = report(
        Some("1.5.7"),
        vec![
            resource(
                "aws_instance",
                "web",
                DriftAction::Update,
                DriftSource::ResourceDriftKey,
                vec![
                    change("instance_type", Some("t3.micro"), Some("t3.small"), false),
                    change("tags.Name", Some("web-server"), Some("web-server-modified"), false),
                ],
            ),
            DriftedResource {
                address: "module.vpc.aws_subnet.private".to_string(),
                module_address: Some("module.vpc".to_string()),
                ..resource(
                    "aws_subnet",
                    "private",
                    DriftAction::Update,
                    DriftSource::ResourceDriftKey,
                    vec![change("cidr_block", Some("10.0.1.0/24"), Some("10.0.2.0/24"), false)],
                )
            },
        ],
    );
    assert_eq!(
        render_human(&readme, true),
        "Drift detected: 2 resource(s)\nTerraform version: 1.5.7\n\n  ~ update aws_instance.web [drift] (aws_instance)\n      instance_type = t3.micro -> t3.small\n      tags.Name = web-server -> web-server-modified\n\n  ~ update module.vpc.aws_subnet.private [drift] (aws_subnet)\n      cidr_block = 10.0.1.0/24 -> 10.0.2.0/24\n\nSummary:\n  ~ 2 updated\n"
    );
    let text = render_human(&sample(), true);
    assert!(text.starts_with("Drift detected: 3 resource(s)\nTerraform version: 1.5.7\n"));
    assert!(text.contains("  ~ update aws_instance.web [drift] (aws_instance)\n"));
    assert!(text.ends_with("Summary:\n  ~ 1 updated\n  - 1 deleted\n  -/+ 1 replaced\n"));
    assert_eq!(render_human(&report(None, vec![]), true), "No drift detected.\n");
}

#[test]
fn render_dispatches_on_format() {
    let r = sample();
    match render(&r, &OutputFormat::Hcl, true) {
        Rendered::Text(t) => assert_eq!(t, render_hcl(&r)),
        _ => panic!("hcl output expected"),
    }
    match render(&r, &OutputFormat::Csv, true) {
        Rendered::Bytes(b) => assert_eq!(b, render_csv(&r)),
        _ => panic!("csv output expected"),
    }
    match render(&r, &OutputFormat::Table, true) {
        Rendered::Text(t) => assert_eq!(t, render_table(&r, true)),
        _ => panic!("table output expected"),
    }
    match render(&r, &OutputFormat::Human, true) {
        Rendered::Text(t) => assert_eq!(t, render_human(&r, true)),
        _ => panic!("human output expected"),
    }
    assert!(matches!(render(&r, &OutputFormat::Json, true), Rendered::Json));
}

#[test]
fn every_csv_row_has_eight_fields() {
    for row in csv_rows(&sample()) {
        assert_eq!(row.len(), 8);
    }
}

#[test]
fn table_holds_header_and_rows() {
    let table = build_table(&sample(), false);
    let header: Vec<String> = table.header().unwrap().cell_iter().map(|c| c.content()).collect();
    assert_eq!(header, vec!["Address", "Type", "Action", "Changed Attributes", "Source"]);
    let rows: Vec<Vec<String>> = table
        .row_iter()
        .map(|row| row.cell_iter().map(|c| c.content()).collect())
        .collect();
    assert_eq!(
        rows,
        vec![
            vec!["aws_instance.web", "aws_instance", "update", "instance_type, password", "resource_drift"],
            vec!["aws_s3_bucket.logs", "aws_s3_bucket", "delete", "-", "inferred"],
            vec!["aws_iam_role.ci", "aws_iam_role", "replace", "name", "inferred"],
        ]
    );
}

#[test]
fn table_without_colour_is_the_plain_drawing() {
    // Without colour, no cell is coloured, so the drawing does not depend
    // on the terminal: no escape sequence appears.
    let text = render_table(&sample(), true);
    assert!(!text.contains('\u{1b}'));
    assert!(text.contains("aws_instance.web"));
}
