use infradrift::cli::{CommonArgs, OutputFormat};
use infradrift::config::Config;
use infradrift::drift::types::{DriftReport, DriftSummary};
use infradrift::json::JsonValue;
use infradrift::pipeline::{analyze, exit_code, filters_from_args};
use infradrift::plan::executor::{
    classify_plan_exit, empty_plan, plan_args, plan_binary, plan_failed_message,
    plan_unexpected_message, show_args, show_failed_message, show_file_failed_message, PlanExit,
};
use infradrift::plan::parser::looks_like_json;
use infradrift::plan::schema::{Change, ResourceChange, TerraformPlan};

fn strings(v: &[&str]) -> Vec<String> {
    v.iter().map(|x| x.to_string()).collect()
}

#[test]
fn json_is_told_from_binary() {
    assert!(looks_like_json(b"{\"format_version\":\"1.2\"}"));
    assert!(looks_like_json(b" \t\r\n\x0c{"));
    assert!(!looks_like_json(b"PK\x03\x04binary"));
    assert!(!looks_like_json(b"   "));
    assert!(!looks_like_json(b""));
    assert!(!looks_like_json(b"\x0b{"));
    assert!(!looks_like_json(b"[{}]"));
}

#[test]
fn plan_commands() {
    assert_eq!(plan_binary(false), "terraform");
    assert_eq!(plan_binary(true), "tofu");
    assert_eq!(
        plan_args("/work/.infradrift-tfplan", &strings(&["-var-file=prod.tfvars", "-lock=false"])),
        strings(&["plan", "-out", "/work/.infradrift-tfplan", "-detailed-exitcode", "-var-file=prod.tfvars", "-lock=false"])
    );
    assert_eq!(show_args("plan.bin"), strings(&["show", "-json", "plan.bin"]));
}

#[test]
fn plan_exit_codes() {
    assert_eq!(classify_plan_exit(0), PlanExit::NoChanges);
    assert_eq!(classify_plan_exit(2), PlanExit::Changes);
    assert_eq!(classify_plan_exit(1), PlanExit::Failed);
    assert_eq!(classify_plan_exit(-1), PlanExit::Unexpected);
    assert_eq!(classify_plan_exit(3), PlanExit::Unexpected);
}

#[test]
fn plan_error_messages() {
    assert_eq!(plan_failed_message("terraform", "boom"), "terraform plan failed:\nboom");
    assert_eq!(
        plan_unexpected_message("tofu", -1, "x"),
        "tofu plan exited with unexpected code -1:\nx"
    );
    assert_eq!(
        plan_unexpected_message("terraform", 137, ""),
        "terraform plan exited with unexpected code 137:\n"
    );
    assert_eq!(show_failed_message("tofu", "bad"), "tofu show -json failed: bad");
    assert_eq!(
        show_file_failed_message("terraform", 1, "no file"),
        "terraform show -json failed (exit code 1): no file"
    );
}

#[test]
fn empty_plan_has_nothing() {
    let p = empty_plan();
    assert!(p.format_version.is_none());
    assert!(p.terraform_version.is_none());
    assert!(p.resource_changes.is_empty());
    assert!(p.resource_drift.is_empty());
}

fn common(types: &[&str], names: &[&str], attrs: &[&str]) -> CommonArgs {
    CommonArgs {
        format: OutputFormat::Human,
        resource_types: strings(types),
        resource_names: strings(names),
        attributes: strings(attrs),
        no_color: true,
        config: "infradrift.toml".to_string(),
    }
}

fn update(address: &str, rtype: &str, key: &str, before: &str, after: &str) -> ResourceChange {
    ResourceChange {
        address: address.to_string(),
        module_address: None,
        resource_type: rtype.to_string(),
        name: "n".to_string(),
        provider_name: "p".to_string(),
        change: Change {
            actions: strings(&["update"]),
            before: Some(JsonValue::Object(vec![(key.to_string(), JsonValue::Str(before.to_string()))])),
            after: Some(JsonValue::Object(vec![(key.to_string(), JsonValue::Str(after.to_string()))])),
            before_sensitive: JsonValue::Null,
            after_sensitive: JsonValue::Null,
            after_unknown: JsonValue::Null,
        },
    }
}

#[test]
fn analyze_detects_then_filters() {
    let plan = TerraformPlan {
        format_version: None,
        terraform_version: Some("1.6.0".to_string()),
        resource_changes: vec![],
        resource_drift: vec![
            update("aws_instance.a", "aws_instance", "tags", "x", "y"),
            update("aws_s3_bucket.b", "aws_s3_bucket", "acl", "private", "public"),
        ],
    };
    let config = Config::default();
    let all = analyze(&plan, &config, &common(&[], &[], &[]));
    assert_eq!(all.drifted_resources.len(), 2);
    assert_eq!(exit_code(&all), 1);
    let some = analyze(&plan, &config, &common(&["aws_s3_bucket"], &[], &[]));
    assert_eq!(some.drifted_resources.len(), 1);
    assert_eq!(some.drifted_resources[0].address, "aws_s3_bucket.b");
    assert_eq!(some.summary.total_drifted, 1);
    let none = analyze(&plan, &config, &common(&[], &["nothing.*"], &[]));
    assert_eq!(none.drifted_resources.len(), 0);
    assert_eq!(exit_code(&none), 0);
}

#[test]
fn filters_come_from_the_options() {
    let f = filters_from_args(&common(&["t"], &["n*"], &["a"]));
    assert_eq!(f.resource_types, strings(&["t"]));
    assert_eq!(f.resource_names, strings(&["n*"]));
    assert_eq!(f.attributes, strings(&["a"]));
}

#[test]
fn clean_report_exits_zero() {
    let r = DriftReport {
        terraform_version: None,
        drifted_resources: vec![],
        summary: DriftSummary { total_drifted: 0, updates: 0, deletes: 0, creates: 0, replaces: 0 },
    };
    assert_eq!(exit_code(&r), 0);
}
