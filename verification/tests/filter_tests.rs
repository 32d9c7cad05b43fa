use infradrift::drift::types::{
    AttributeChange, DriftAction, DriftReport, DriftSource, DriftSummary, DriftedResource,
};
use infradrift::filter::engine::{glob_match, Filters};

fn strings(v: &[&str]) -> Vec<String> {
    v.iter().map(|x| x.to_string()).collect()
}

fn make_test_report() -> DriftReport {
    let mut report = DriftReport {
        terraform_version: Some("1.5.0".to_string()),
        drifted_resources: vec![
            DriftedResource {
                address: "aws_instance.web".to_string(),
                resource_type: "aws_instance".to_string(),
                name: "web".to_string(),
                module_address: None,
                provider: "aws".to_string(),
                action: DriftAction::Update,
                attribute_changes: vec![AttributeChange {
                    path: "tags.Name".to_string(),
                    before: Some("old".to_string()),
                    after: Some("new".to_string()),
                    sensitive: false,
                }],
                source: DriftSource::ResourceDriftKey,
            },
            DriftedResource {
                address: "module.vpc.aws_subnet.private".to_string(),
                resource_type: "aws_subnet".to_string(),
                name: "private".to_string(),
                module_address: Some("module.vpc".to_string()),
                provider: "aws".to_string(),
                action: DriftAction::Update,
                attribute_changes: vec![AttributeChange {
                    path: "cidr_block".to_string(),
                    before: Some("10.0.1.0/24".to_string()),
                    after: Some("10.0.2.0/24".to_string()),
                    sensitive: false,
                }],
                source: DriftSource::ResourceDriftKey,
            },
        ],
        summary: DriftSummary {
            total_drifted: 2,
            updates: 2,
            deletes: 0,
            creates: 0,
            replaces: 0,
        },
    };
    report.recalculate_summary();
    report
}

#[test]
fn test_glob_match_exact() {
    assert!(glob_match("aws_instance.web", "aws_instance.web"));
    assert!(!glob_match("aws_instance.web", "aws_instance.api"));
}

#[test]
fn test_glob_match_wildcard() {
    assert!(glob_match("module.vpc.*", "module.vpc.aws_subnet.private"));
    assert!(glob_match("*.aws_instance.*", "module.app.aws_instance.web"));
    assert!(!glob_match("module.vpc.*", "module.app.aws_instance.web"));
}

#[test]
fn test_glob_match_trailing_wildcard() {
    assert!(glob_match("module.*", "module.vpc.aws_subnet.private"));
}

#[test]
fn test_filter_by_type() {
    let filters = Filters {
        resource_types: vec!["aws_instance".to_string()],
        resource_names: vec![],
        attributes: vec![],
    };

    let mut report = make_test_report();
    filters.apply(&mut report);

    assert_eq!(report.drifted_resources.len(), 1);
    assert_eq!(report.drifted_resources[0].resource_type, "aws_instance");
}

#[test]
fn test_filter_by_name_glob() {
    let filters = Filters {
        resource_types: vec![],
        resource_names: vec!["module.vpc.*".to_string()],
        attributes: vec![],
    };

    let mut report = make_test_report();
    filters.apply(&mut report);

    assert_eq!(report.drifted_resources.len(), 1);
    assert_eq!(report.drifted_resources[0].address, "module.vpc.aws_subnet.private");
}

#[test]
fn test_filter_by_attribute() {
    let filters = Filters {
        resource_types: vec![],
        resource_names: vec![],
        attributes: vec!["tags".to_string()],
    };

    let mut report = make_test_report();
    filters.apply(&mut report);

    // Only resources with tag changes should remain
    assert!(report
        .drifted_resources
        .iter()
        .all(|r| r.attribute_changes.iter().any(|a| a.path.starts_with("tags"))));
}

#[test]
fn glob_edge_cases() {
    assert!(glob_match("*", ""));
    assert!(glob_match("*", "anything"));
    assert!(glob_match("**", "x"));
    assert!(glob_match("a*b", "ab"));
    assert!(!glob_match("a*a", "a"));
    assert!(glob_match("a*b*c", "a-b-c"));
    assert!(!glob_match("a*c*b", "a-b-c"));
    assert!(glob_match("*web", "aws_instance.web"));
    assert!(!glob_match("*web", "aws_instance.web2"));
    assert!(!glob_match("", "x"));
    assert!(glob_match("", ""));
    assert!(glob_match("ab*ba", "aba-ba"));
    assert!(!glob_match("ab*ba", "aba"));
}

#[test]
fn empty_filters_change_nothing() {
    let filters = Filters { resource_types: vec![], resource_names: vec![], attributes: vec![] };
    assert!(filters.is_empty());
    let mut report = make_test_report();
    filters.apply(&mut report);
    assert_eq!(report.drifted_resources.len(), 2);
    assert_eq!(report.summary.total_drifted, 2);
}

#[test]
fn attribute_filter_prunes_changes_and_recounts() {
    let mut report = make_test_report();
    report.drifted_resources[1].attribute_changes.push(AttributeChange {
        path: "tags_all.Env".to_string(),
        before: None,
        after: Some("prod".to_string()),
        sensitive: false,
    });
    let filters = Filters {
        resource_types: vec![],
        resource_names: vec![],
        attributes: strings(&["tags"]),
    };
    assert!(!filters.is_empty());
    filters.apply(&mut report);
    assert_eq!(report.drifted_resources.len(), 2);
    // "tags_all.Env" starts with "tags", so it is kept; "cidr_block" is not.
    assert_eq!(report.drifted_resources[1].attribute_changes.len(), 1);
    assert_eq!(report.drifted_resources[1].attribute_changes[0].path, "tags_all.Env");
    assert_eq!(report.summary.total_drifted, 2);
    assert_eq!(report.summary.updates, 2);
}

#[test]
fn combined_filters_must_all_pass() {
    let filters = Filters {
        resource_types: strings(&["aws_subnet", "aws_instance"]),
        resource_names: strings(&["module.*"]),
        attributes: strings(&["cidr_block"]),
    };
    let mut report = make_test_report();
    filters.apply(&mut report);
    assert_eq!(report.drifted_resources.len(), 1);
    assert_eq!(report.drifted_resources[0].name, "private");
    assert_eq!(report.summary.total_drifted, 1);
    assert_eq!(report.terraform_version.as_deref(), Some("1.5.0"));
}

#[test]
fn filtering_twice_is_filtering_once() {
    let filters = Filters {
        resource_types: vec![],
        resource_names: strings(&["*"]),
        attributes: strings(&["tags"]),
    };
    let mut once = make_test_report();
    filters.apply(&mut once);
    let mut twice = make_test_report();
    filters.apply(&mut twice);
    filters.apply(&mut twice);
    assert_eq!(once.drifted_resources.len(), twice.drifted_resources.len());
    for (a, b) in once.drifted_resources.iter().zip(twice.drifted_resources.iter()) {
        assert_eq!(a.address, b.address);
        assert_eq!(a.attribute_changes.len(), b.attribute_changes.len());
    }
    assert_eq!(once.summary, twice.summary);
}

#[test]
fn two_filters_commute() {
    let f = Filters { resource_types: strings(&["aws_instance", "aws_subnet"]), resource_names: vec![], attributes: strings(&["tags"]) };
    let g = Filters { resource_types: vec![], resource_names: strings(&["aws_*"]), attributes: strings(&["tags.N"]) };
    let mut a = make_test_report();
    f.apply(&mut a);
    g.apply(&mut a);
    let mut b = make_test_report();
    g.apply(&mut b);
    f.apply(&mut b);
    assert_eq!(a.drifted_resources.len(), 1);
    assert_eq!(a.drifted_resources.len(), b.drifted_resources.len());
    for (x, y) in a.drifted_resources.iter().zip(b.drifted_resources.iter()) {
        assert_eq!(x.address, y.address);
        assert_eq!(x.attribute_changes.len(), y.attribute_changes.len());
    }
    assert_eq!(a.summary, b.summary);
}
