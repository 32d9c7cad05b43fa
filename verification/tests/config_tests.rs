use infradrift::config::{action_is_valid, attribute_matches_pattern, default_mode, Config, IgnoreMode, IgnoreRule};

fn strings(v: &[&str]) -> Vec<String> {
    v.iter().map(|s| s.to_string()).collect()
}

fn rule(types: &[&str], actions: &[&str], attributes: &[&str], mode: IgnoreMode) -> IgnoreRule {
    IgnoreRule {
        resource_types: strings(types),
        actions: strings(actions),
        attributes: strings(attributes),
        mode,
    }
}

#[test]
fn test_attribute_matches_exact() {
    assert!(attribute_matches_pattern("tags.Name", "tags.Name"));
    assert!(!attribute_matches_pattern("tags.Name", "tags.Env"));
}

#[test]
fn test_attribute_matches_prefix() {
    assert!(attribute_matches_pattern("tags.Name", "tags"));
    assert!(attribute_matches_pattern("tags.Environment", "tags"));
}

#[test]
fn test_attribute_matches_wildcard() {
    assert!(attribute_matches_pattern(
        "template.0.containers.0.image",
        "template.*.containers.*.image"
    ));
    assert!(!attribute_matches_pattern(
        "template.0.containers.0.name",
        "template.*.containers.*.image"
    ));
}

#[test]
fn test_attribute_matches_simple_wildcard() {
    assert!(attribute_matches_pattern("traffic.0.revision", "traffic.*.revision"));
    assert!(attribute_matches_pattern("traffic.1.type", "traffic.*.type"));
}

#[test]
fn test_validate_empty_ignore() {
    let config = Config { ignore: vec![] };
    let warnings = config.validate();
    assert_eq!(warnings.len(), 1);
    assert!(warnings[0].contains("no ignore rules defined"));
}

#[test]
fn test_validate_valid_config() {
    let config = Config {
        ignore: vec![rule(&["aws_instance"], &["update"], &["tags"], IgnoreMode::All)],
    };
    let warnings = config.validate();
    assert!(warnings.is_empty());
}

#[test]
fn test_validate_unknown_action() {
    let config = Config {
        ignore: vec![rule(&[], &["destroy"], &["tags"], IgnoreMode::All)],
    };
    let warnings = config.validate();
    assert_eq!(warnings.len(), 1);
    assert!(warnings[0].contains("unknown action \"destroy\""));
}

#[test]
fn test_validate_any_mode_without_attributes() {
    let config = Config {
        ignore: vec![rule(&["aws_instance"], &["update"], &[], IgnoreMode::Any)],
    };
    let warnings = config.validate();
    assert!(warnings
        .iter()
        .any(|w| w.contains("mode is \"any\" but no attributes")));
}

#[test]
fn test_validate_bad_attribute_patterns() {
    let config = Config {
        ignore: vec![rule(
            &["aws_instance"],
            &[],
            &[".tags", "tags.", "tags..name", ""],
            IgnoreMode::All,
        )],
    };
    let warnings = config.validate();
    assert_eq!(warnings.len(), 4);
}

#[test]
fn test_validate_catch_all_rule() {
    let config = Config {
        ignore: vec![rule(&[], &[], &[], IgnoreMode::All)],
    };
    let warnings = config.validate();
    assert!(warnings.iter().any(|w| w.contains("matches all drift")));
}

#[test]
fn default_mode_is_all() {
    assert_eq!(default_mode(), IgnoreMode::All);
}

#[test]
fn default_config_has_no_rules() {
    let config = Config::default();
    assert!(config.ignore.is_empty());
}

#[test]
fn validate_messages_are_exact() {
    let config = Config {
        ignore: vec![
            rule(&["aws_instance"], &["Update", "destroy"], &["tags"], IgnoreMode::All),
            rule(&[], &[], &[".tags", "tags.", "a..b", ""], IgnoreMode::Any),
            rule(&[], &[], &[], IgnoreMode::Any),
        ],
    };
    let warnings = config.validate();
    let expected = vec![
        "ignore rule #1: unknown action \"destroy\" (valid: update, delete, create, replace)",
        "ignore rule #2: attribute pattern \".tags\" should not start or end with \".\"",
        "ignore rule #2: attribute pattern \"tags.\" should not start or end with \".\"",
        "ignore rule #2: attribute pattern \"a..b\" has empty segment (\"..\")",
        "ignore rule #2: empty attribute pattern",
        "ignore rule #3: mode is \"any\" but no attributes are defined (mode has no effect without attributes)",
        "ignore rule #3: no resource_types, actions, or attributes specified (matches all drift \u{2014} this will hide everything)",
    ];
    assert_eq!(warnings, expected);
}

#[test]
fn validate_numbers_rules_past_nine() {
    let mut ignore = Vec::new();
    for _ in 0..11 {
        ignore.push(rule(&["t"], &["update"], &["tags"], IgnoreMode::All));
    }
    ignore.push(rule(&["t"], &["bogus"], &["tags"], IgnoreMode::All));
    let warnings = Config { ignore }.validate();
    assert_eq!(
        warnings,
        vec!["ignore rule #12: unknown action \"bogus\" (valid: update, delete, create, replace)"]
    );
}

#[test]
fn pattern_matches_itself_and_paths_below() {
    for p in ["tags", "tags.Name", "template.*.image", "a.b.c"] {
        assert!(attribute_matches_pattern(p, p));
        assert!(attribute_matches_pattern(&format!("{}.x.y", p), p));
    }
    assert!(!attribute_matches_pattern("tags", "tags.Name"));
    assert!(!attribute_matches_pattern("tagsX.Name", "tags"));
    assert!(attribute_matches_pattern("anything", "*"));
}

#[test]
fn action_names_are_checked_in_lower_case() {
    for a in ["update", "DELETE", "Create", "rEpLaCe"] {
        assert!(action_is_valid(a));
    }
    for a in ["destroy", "", "updates", "no-op"] {
        assert!(!action_is_valid(a));
    }
}
