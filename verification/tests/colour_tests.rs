use infradrift::drift::types::{
    AttributeChange, DriftAction, DriftReport, DriftSource, DriftSummary, DriftedResource,
};
use infradrift::output::human::render;

#[test]
fn coloured_output_wraps_segments_in_escape_codes() {
    colored::control::set_override(true);
    let mut report = DriftReport {
        terraform_version: None,
        drifted_resources: vec![DriftedResource {
            address: "aws_instance.web".to_string(),
            resource_type: "aws_instance".to_string(),
            name: "web".to_string(),
            module_address: None,
            provider: "aws".to_string(),
            action: DriftAction::Update,
            attribute_changes: vec![AttributeChange {
                path: "size".to_string(),
                before: Some("small".to_string()),
                after: None,
                sensitive: false,
            }],
            source: DriftSource::ResourceDriftKey,
        }],
        summary: DriftSummary { total_drifted: 0, updates: 0, deletes: 0, creates: 0, replaces: 0 },
    };
    report.recalculate_summary();
    let text = render(&report, false);
    assert!(text.starts_with("\u{1b}[1;31mDrift detected: 1 resource(s)\u{1b}[0m\n\n"));
    assert!(text.contains("  \u{1b}[33m~ update\u{1b}[0m \u{1b}[1maws_instance.web\u{1b}[0m \u{1b}[36m[drift]\u{1b}[0m (\u{1b}[2maws_instance\u{1b}[0m)\n"));
    assert!(text.contains("      size = \u{1b}[31msmall\u{1b}[0m -> \u{1b}[32m(none)\u{1b}[0m\n"));
    assert!(text.contains("\u{1b}[1mSummary:\u{1b}[0m\n  ~ 1 updated\n"));
}
