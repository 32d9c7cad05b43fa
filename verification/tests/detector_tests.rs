use infradrift::config::{Config, IgnoreMode, IgnoreRule};
use infradrift::drift::detector::{
    apply_ignore_rules, classify_action, compute_attribute_changes, detect_drift, flatten_json,
    is_sensitive_path, process_resource_change, rule_matches_resource_type, should_ignore_resource,
};
use infradrift::drift::types::{
    AttributeChange, DriftAction, DriftSource, DriftedResource,
};
use infradrift::json::JsonValue;
use infradrift::keymap::KeyMap;
use infradrift::plan::schema::{Change, ResourceChange, TerraformPlan};

fn s(x: &str) -> JsonValue {
    JsonValue::Str(x.to_string())
}

fn obj(members: Vec<(&str, JsonValue)>) -> JsonValue {
    JsonValue::Object(members.into_iter().map(|(k, v)| (k.to_string(), v)).collect())
}

fn strings(v: &[&str]) -> Vec<String> {
    v.iter().map(|x| x.to_string()).collect()
}

fn change(actions: &[&str], before: Option<JsonValue>, after: Option<JsonValue>) -> Change {
    Change {
        actions: strings(actions),
        before,
        after,
        before_sensitive: JsonValue::Null,
        after_sensitive: JsonValue::Null,
        after_unknown: JsonValue::Null,
    }
}

fn resource(address: &str, rtype: &str, name: &str, provider: &str, change: Change) -> ResourceChange {
    ResourceChange {
        address: address.to_string(),
        module_address: None,
        resource_type: rtype.to_string(),
        name: name.to_string(),
        provider_name: provider.to_string(),
        change,
    }
}

fn plan(resource_changes: Vec<ResourceChange>, resource_drift: Vec<ResourceChange>) -> TerraformPlan {
    TerraformPlan {
        format_version: Some("1.2".to_string()),
        terraform_version: Some("1.5.0".to_string()),
        resource_changes,
        resource_drift,
    }
}

fn key(p: &str) -> Vec<char> {
    p.chars().collect()
}

fn attr(path: &str, before: Option<&str>, after: Option<&str>, sensitive: bool) -> AttributeChange {
    AttributeChange {
        path: path.to_string(),
        before: before.map(|x| x.to_string()),
        after: after.map(|x| x.to_string()),
        sensitive,
    }
}

fn drifted(rtype: &str, action: DriftAction, changes: Vec<AttributeChange>) -> DriftedResource {
    DriftedResource {
        address: format!("{}.x", rtype),
        resource_type: rtype.to_string(),
        name: "x".to_string(),
        module_address: None,
        provider: "p".to_string(),
        action,
        attribute_changes: changes,
        source: DriftSource::ResourceDriftKey,
    }
}

fn rule(types: &[&str], actions: &[&str], attributes: &[&str], mode: IgnoreMode) -> IgnoreRule {
    IgnoreRule {
        resource_types: strings(types),
        actions: strings(actions),
        attributes: strings(attributes),
        mode,
    }
}

#[test]
fn test_detect_drift_from_resource_drift_key() {
    let p = plan(
        vec![],
        vec![resource(
            "aws_instance.web",
            "aws_instance",
            "web",
            "registry.terraform.io/hashicorp/aws",
            change(
                &["update"],
                Some(obj(vec![("tags", obj(vec![("Name", s("old"))]))])),
                Some(obj(vec![("tags", obj(vec![("Name", s("new"))]))])),
            ),
        )],
    );
    let config = Config::default();
    let report = detect_drift(&p, &config);

    assert_eq!(report.drifted_resources.len(), 1);
    assert_eq!(report.drifted_resources[0].address, "aws_instance.web");
    assert_eq!(report.drifted_resources[0].source, DriftSource::ResourceDriftKey);
}

#[test]
fn test_detect_drift_fallback_to_resource_changes() {
    let p = plan(
        vec![resource(
            "aws_s3_bucket.data",
            "aws_s3_bucket",
            "data",
            "registry.terraform.io/hashicorp/aws",
            change(
                &["update"],
                Some(obj(vec![("acl", s("private"))])),
                Some(obj(vec![("acl", s("public-read"))])),
            ),
        )],
        vec![],
    );
    let config = Config::default();
    let report = detect_drift(&p, &config);

    assert_eq!(report.drifted_resources.len(), 1);
    assert_eq!(report.drifted_resources[0].source, DriftSource::InferredFromChanges);
}

#[test]
fn test_no_drift() {
    let p = plan(
        vec![resource(
            "aws_instance.web",
            "aws_instance",
            "web",
            "registry.terraform.io/hashicorp/aws",
            change(&["no-op"], Some(obj(vec![])), Some(obj(vec![]))),
        )],
        vec![],
    );
    let config = Config::default();
    let report = detect_drift(&p, &config);

    assert_eq!(report.drifted_resources.len(), 0);
    assert_eq!(report.summary.total_drifted, 0);
}

#[test]
fn test_ignore_rules_all_mode() {
    let container = |image: &str| obj(vec![("0", obj(vec![("image", s(image))]))]);
    let p = plan(
        vec![],
        vec![resource(
            "google_cloud_run_v2_service.app",
            "google_cloud_run_v2_service",
            "app",
            "registry.terraform.io/hashicorp/google",
            change(
                &["update"],
                Some(obj(vec![
                    ("client", s("gcloud")),
                    ("template", obj(vec![("0", obj(vec![("containers", container("old:v1"))]))])),
                ])),
                Some(obj(vec![
                    ("client", s("terraform")),
                    ("template", obj(vec![("0", obj(vec![("containers", container("new:v2"))]))])),
                ])),
            ),
        )],
    );
    let config = Config {
        ignore: vec![rule(
            &["google_cloud_run_v2_service"],
            &["update"],
            &["client", "template.*.containers.*.image"],
            IgnoreMode::All,
        )],
    };
    let report = detect_drift(&p, &config);

    assert_eq!(report.drifted_resources.len(), 0);
}

#[test]
fn test_flatten_json() {
    let val = obj(vec![
        ("count", JsonValue::Number("3".to_string())),
        ("tags", obj(vec![("Env", s("prod")), ("Name", s("web"))])),
    ]);
    let mut out: KeyMap<String> = KeyMap::new();
    flatten_json(&val, "", &mut out);

    assert_eq!(out.get(&key("tags.Name")).unwrap(), "web");
    assert_eq!(out.get(&key("tags.Env")).unwrap(), "prod");
    assert_eq!(out.get(&key("count")).unwrap(), "3");
}

#[test]
fn flatten_arrays_scalars_and_prefix() {
    let val = obj(vec![
        ("flag", JsonValue::Bool(true)),
        ("list", JsonValue::Array(vec![s("a"), JsonValue::Null, obj(vec![("k", JsonValue::Bool(false))])])),
    ]);
    let mut out: KeyMap<String> = KeyMap::new();
    flatten_json(&val, "root", &mut out);
    assert_eq!(out.len(), 4);
    assert_eq!(out.get(&key("root.flag")).unwrap(), "true");
    assert_eq!(out.get(&key("root.list.0")).unwrap(), "a");
    assert_eq!(out.get(&key("root.list.1")).unwrap(), "null");
    assert_eq!(out.get(&key("root.list.2.k")).unwrap(), "false");

    // A scalar at the top with no prefix has no path.
    let mut top: KeyMap<String> = KeyMap::new();
    flatten_json(&s("lonely"), "", &mut top);
    assert_eq!(top.len(), 0);
    flatten_json(&JsonValue::Null, "", &mut top);
    assert_eq!(top.len(), 0);
}

#[test]
fn classify_action_cases() {
    assert_eq!(classify_action(&strings(&["update"])), Some(DriftAction::Update));
    assert_eq!(classify_action(&strings(&["delete"])), Some(DriftAction::Delete));
    assert_eq!(classify_action(&strings(&["create"])), Some(DriftAction::Create));
    assert_eq!(classify_action(&strings(&["create", "delete"])), Some(DriftAction::Replace));
    assert_eq!(classify_action(&strings(&["delete", "create"])), Some(DriftAction::Replace));
    assert_eq!(classify_action(&strings(&["read"])), None);
    assert_eq!(classify_action(&strings(&["no-op"])), None);
    assert_eq!(classify_action(&strings(&["something"])), Some(DriftAction::Update));
    assert_eq!(classify_action(&strings(&["update", "update"])), Some(DriftAction::Update));
    assert_eq!(classify_action(&strings(&["a", "b", "c"])), Some(DriftAction::Update));
    assert_eq!(classify_action(&[]), None);
}

#[test]
fn sensitive_paths() {
    let marks = obj(vec![
        ("password", JsonValue::Bool(true)),
        ("nested", obj(vec![("secret", JsonValue::Bool(true)), ("open", JsonValue::Bool(false))])),
        ("list", JsonValue::Array(vec![JsonValue::Bool(false), JsonValue::Bool(true)])),
        ("whole", JsonValue::Bool(true)),
    ]);
    assert!(is_sensitive_path("password", &marks));
    assert!(is_sensitive_path("nested.secret", &marks));
    assert!(!is_sensitive_path("nested.open", &marks));
    assert!(!is_sensitive_path("nested", &marks));
    assert!(is_sensitive_path("list.1", &marks));
    assert!(!is_sensitive_path("list.0", &marks));
    assert!(!is_sensitive_path("list.x", &marks));
    assert!(!is_sensitive_path("list.7", &marks));
    assert!(is_sensitive_path("whole.below.deep", &marks));
    assert!(!is_sensitive_path("missing", &marks));
    assert!(!is_sensitive_path("anything", &JsonValue::Null));
    assert!(is_sensitive_path("anything", &JsonValue::Bool(true)));
}

#[test]
fn attribute_changes_in_path_order_with_masking() {
    let c = Change {
        actions: strings(&["update"]),
        before: Some(obj(vec![
            ("b", s("1")),
            ("password", s("hunter2")),
            ("same", s("x")),
            ("z", s("gone")),
        ])),
        after: Some(obj(vec![
            ("a", s("new")),
            ("b", s("2")),
            ("password", s("letmein")),
            ("same", s("x")),
        ])),
        before_sensitive: obj(vec![("password", JsonValue::Bool(true))]),
        after_sensitive: JsonValue::Null,
        after_unknown: JsonValue::Null,
    };
    let changes = compute_attribute_changes(&c);
    let expected = vec![
        attr("a", None, Some("new"), false),
        attr("b", Some("1"), Some("2"), false),
        attr("password", Some("(sensitive)"), Some("(sensitive)"), true),
        attr("z", Some("gone"), None, false),
    ];
    assert_eq!(changes.len(), expected.len());
    for (got, want) in changes.iter().zip(expected.iter()) {
        assert_eq!(got.path, want.path);
        assert_eq!(got.before, want.before);
        assert_eq!(got.after, want.after);
        assert_eq!(got.sensitive, want.sensitive);
    }
}

#[test]
fn attribute_changes_one_sided() {
    let deleted = change(&["delete"], Some(obj(vec![("b", s("2")), ("a", s("1"))])), None);
    let got = compute_attribute_changes(&deleted);
    assert_eq!(got.len(), 2);
    assert_eq!(got[0].path, "a");
    assert_eq!(got[0].before.as_deref(), Some("1"));
    assert_eq!(got[0].after, None);
    assert_eq!(got[1].path, "b");

    let created = change(&["create"], None, Some(obj(vec![("k", s("v"))])));
    let got = compute_attribute_changes(&created);
    assert_eq!(got.len(), 1);
    assert_eq!(got[0].before, None);
    assert_eq!(got[0].after.as_deref(), Some("v"));
    assert!(!got[0].sensitive);

    let neither = change(&["update"], None, None);
    assert!(compute_attribute_changes(&neither).is_empty());
}

#[test]
fn process_resource_change_copies_fields() {
    let mut rc = resource(
        "module.m.aws_instance.web",
        "aws_instance",
        "web",
        "prov",
        change(&["delete", "create"], Some(obj(vec![("a", s("1"))])), Some(obj(vec![("a", s("2"))]))),
    );
    rc.module_address = Some("module.m".to_string());
    let d = process_resource_change(&rc, DriftSource::InferredFromChanges).unwrap();
    assert_eq!(d.address, "module.m.aws_instance.web");
    assert_eq!(d.resource_type, "aws_instance");
    assert_eq!(d.name, "web");
    assert_eq!(d.module_address.as_deref(), Some("module.m"));
    assert_eq!(d.provider, "prov");
    assert_eq!(d.action, DriftAction::Replace);
    assert_eq!(d.source, DriftSource::InferredFromChanges);
    assert_eq!(d.attribute_changes.len(), 1);

    let read = resource("data.x.y", "x", "y", "p", change(&["read"], None, None));
    assert!(process_resource_change(&read, DriftSource::ResourceDriftKey).is_none());
}

#[test]
fn fallback_skips_noop_and_pure_create() {
    let p = plan(
        vec![
            resource("a.noop", "a", "noop", "p", change(&["no-op"], Some(obj(vec![("k", s("1"))])), Some(obj(vec![("k", s("2"))])))),
            resource("a.new", "a", "new", "p", change(&["create"], None, Some(obj(vec![("k", s("1"))])))),
            resource("a.gone", "a", "gone", "p", change(&["delete"], None, None)),
            resource("a.swap", "a", "swap", "p", change(&["create", "delete"], Some(obj(vec![("k", s("1"))])), Some(obj(vec![("k", s("2"))])))),
        ],
        vec![],
    );
    let report = detect_drift(&p, &Config::default());
    let addresses: Vec<&str> = report.drifted_resources.iter().map(|r| r.address.as_str()).collect();
    assert_eq!(addresses, vec!["a.gone", "a.swap"]);
    assert_eq!(report.summary.total_drifted, 2);
    assert_eq!(report.summary.deletes, 1);
    assert_eq!(report.summary.replaces, 1);
    assert_eq!(report.summary.updates, 0);
    assert_eq!(report.terraform_version.as_deref(), Some("1.5.0"));
}

#[test]
fn resource_drift_entries_without_drift_fall_back() {
    // resource_drift is present but yields nothing: resource_changes is used.
    let p = plan(
        vec![resource("b.x", "b", "x", "p", change(&["update"], Some(obj(vec![("k", s("1"))])), Some(obj(vec![("k", s("2"))]))))],
        vec![resource("a.x", "a", "x", "p", change(&["no-op"], None, None))],
    );
    let report = detect_drift(&p, &Config::default());
    assert_eq!(report.drifted_resources.len(), 1);
    assert_eq!(report.drifted_resources[0].address, "b.x");
    assert_eq!(report.drifted_resources[0].source, DriftSource::InferredFromChanges);
}

#[test]
fn update_without_changes_is_not_reported_but_delete_is() {
    let p = plan(
        vec![],
        vec![
            resource("a.same", "a", "same", "p", change(&["update"], Some(obj(vec![("k", s("1"))])), Some(obj(vec![("k", s("1"))])))),
            resource("a.gone", "a", "gone", "p", change(&["delete"], None, None)),
        ],
    );
    let report = detect_drift(&p, &Config::default());
    assert_eq!(report.drifted_resources.len(), 1);
    assert_eq!(report.drifted_resources[0].address, "a.gone");
    assert_eq!(report.drifted_resources[0].action, DriftAction::Delete);
}

#[test]
fn should_ignore_resource_cases() {
    let r = drifted("aws_x", DriftAction::Update, vec![attr("tags.Name", Some("a"), Some("b"), false)]);
    // Type filter excludes.
    assert!(!should_ignore_resource(&r, &rule(&["aws_y"], &[], &[], IgnoreMode::All)));
    // Action filter excludes.
    assert!(!should_ignore_resource(&r, &rule(&[], &["delete"], &[], IgnoreMode::All)));
    // No attributes: type and action match, so ignore.
    assert!(should_ignore_resource(&r, &rule(&["aws_x"], &["update"], &[], IgnoreMode::All)));
    // All mode: every change matches.
    assert!(should_ignore_resource(&r, &rule(&[], &[], &["tags"], IgnoreMode::All)));
    // All mode: a change does not match.
    assert!(!should_ignore_resource(&r, &rule(&[], &[], &["labels"], IgnoreMode::All)));
    // Any mode with attributes never hides the whole resource.
    assert!(!should_ignore_resource(&r, &rule(&[], &[], &["tags"], IgnoreMode::Any)));
    // Any mode without attributes hides it.
    assert!(should_ignore_resource(&r, &rule(&[], &[], &[], IgnoreMode::Any)));
    // All mode on a resource without changes does not hide it.
    let d = drifted("aws_x", DriftAction::Delete, vec![]);
    assert!(!should_ignore_resource(&d, &rule(&[], &[], &["tags"], IgnoreMode::All)));
}

#[test]
fn rule_type_matching() {
    let r = drifted("aws_x", DriftAction::Update, vec![]);
    assert!(rule_matches_resource_type(&r, &rule(&[], &[], &[], IgnoreMode::Any)));
    assert!(rule_matches_resource_type(&r, &rule(&["aws_y", "aws_x"], &[], &[], IgnoreMode::Any)));
    assert!(!rule_matches_resource_type(&r, &rule(&["aws_y"], &[], &[], IgnoreMode::Any)));
}

#[test]
fn any_mode_prunes_changes() {
    let mut resources = vec![
        drifted(
            "aws_x",
            DriftAction::Update,
            vec![attr("tags.Name", Some("a"), Some("b"), false), attr("size", Some("1"), Some("2"), false)],
        ),
        drifted("aws_x", DriftAction::Update, vec![attr("tags.Env", Some("a"), Some("b"), false)]),
        drifted("aws_y", DriftAction::Update, vec![attr("tags.Env", Some("a"), Some("b"), false)]),
        drifted("aws_x", DriftAction::Delete, vec![attr("tags.Env", Some("a"), None, false)]),
    ];
    apply_ignore_rules(&mut resources, &[rule(&["aws_x"], &[], &["tags"], IgnoreMode::Any)]);
    assert_eq!(resources.len(), 3);
    assert_eq!(resources[0].attribute_changes.len(), 1);
    assert_eq!(resources[0].attribute_changes[0].path, "size");
    assert_eq!(resources[1].resource_type, "aws_y");
    assert_eq!(resources[1].attribute_changes.len(), 1);
    // A deletion stays even with no changes left.
    assert_eq!(resources[2].action, DriftAction::Delete);
    assert!(resources[2].attribute_changes.is_empty());
}

#[test]
fn detected_sensitive_values_are_masked_and_counted() {
    let mut c = change(
        &["update"],
        Some(obj(vec![("db", obj(vec![("password", s("a")), ("user", s("u1"))]))])),
        Some(obj(vec![("db", obj(vec![("password", s("b")), ("user", s("u2"))]))])),
    );
    c.after_sensitive = obj(vec![("db", obj(vec![("password", JsonValue::Bool(true))]))]);
    let p = plan(vec![], vec![resource("db.main", "db", "main", "p", c)]);
    let report = detect_drift(&p, &Config::default());
    let changes = &report.drifted_resources[0].attribute_changes;
    assert_eq!(changes.len(), 2);
    assert_eq!(changes[0].path, "db.password");
    assert!(changes[0].sensitive);
    assert_eq!(changes[0].before.as_deref(), Some("(sensitive)"));
    assert_eq!(changes[0].after.as_deref(), Some("(sensitive)"));
    assert_eq!(changes[1].path, "db.user");
    assert!(!changes[1].sensitive);
    assert_eq!(changes[1].after.as_deref(), Some("u2"));
    let s = report.summary;
    assert_eq!(s.total_drifted, s.updates + s.deletes + s.creates + s.replaces);
}

#[test]
fn catch_all_rule_hides_every_resource() {
    let p = plan(
        vec![],
        vec![
            resource("a.x", "a", "x", "p", change(&["update"], Some(obj(vec![("k", s("1"))])), Some(obj(vec![("k", s("2"))])))),
            resource("b.y", "b", "y", "p", change(&["delete"], None, None)),
        ],
    );
    for mode in [IgnoreMode::All, IgnoreMode::Any] {
        let config = Config { ignore: vec![rule(&[], &[], &[], mode)] };
        let report = detect_drift(&p, &config);
        assert!(report.drifted_resources.is_empty());
        assert_eq!(report.summary.total_drifted, 0);
    }
}

#[test]
fn deleted_sensitive_attribute_is_masked() {
    let mut c = change(&["delete"], Some(obj(vec![("password", s("hunter2"))])), None);
    c.before_sensitive = obj(vec![("password", JsonValue::Bool(true))]);
    let got = compute_attribute_changes(&c);
    assert_eq!(got.len(), 1);
    assert_eq!(got[0].path, "password");
    assert!(got[0].sensitive);
    assert_eq!(got[0].before.as_deref(), Some("(sensitive)"));
    assert_eq!(got[0].after, None);
}

#[test]
fn created_sensitive_attribute_is_masked() {
    let mut c = change(&["create"], None, Some(obj(vec![("name", s("db")), ("token", s("abc"))])));
    c.after_sensitive = obj(vec![("token", JsonValue::Bool(true))]);
    let got = compute_attribute_changes(&c);
    assert_eq!(got.len(), 2);
    assert_eq!(got[0].after.as_deref(), Some("db"));
    assert!(!got[0].sensitive);
    assert_eq!(got[1].path, "token");
    assert!(got[1].sensitive);
    assert_eq!(got[1].before, None);
    assert_eq!(got[1].after.as_deref(), Some("(sensitive)"));
}

#[test]
fn swapping_states_mirrors_changes() {
    let before = || Some(obj(vec![("a", s("1")), ("gone", s("x")), ("secret", s("p"))]));
    let after = || Some(obj(vec![("a", s("2")), ("new", s("y")), ("secret", s("q"))]));
    let mut c1 = change(&["update"], before(), after());
    c1.before_sensitive = obj(vec![("secret", JsonValue::Bool(true))]);
    let mut c2 = change(&["update"], after(), before());
    c2.after_sensitive = obj(vec![("secret", JsonValue::Bool(true))]);
    let r1 = compute_attribute_changes(&c1);
    let r2 = compute_attribute_changes(&c2);
    assert_eq!(r1.len(), r2.len());
    for (x, y) in r1.iter().zip(r2.iter()) {
        assert_eq!(x.path, y.path);
        assert_eq!(x.sensitive, y.sensitive);
        assert_eq!(x.before, y.after);
        assert_eq!(x.after, y.before);
    }
}

#[test]
fn any_mode_rule_respects_actions() {
    let mut resources = vec![drifted(
        "aws_x",
        DriftAction::Update,
        vec![attr("ami", Some("a"), Some("b"), false), attr("tags.Name", Some("a"), Some("b"), false)],
    )];
    apply_ignore_rules(&mut resources, &[rule(&[], &["delete"], &["tags"], IgnoreMode::Any)]);
    assert_eq!(resources.len(), 1);
    assert_eq!(resources[0].attribute_changes.len(), 2);
    apply_ignore_rules(&mut resources, &[rule(&[], &["update"], &["tags"], IgnoreMode::Any)]);
    assert_eq!(resources[0].attribute_changes.len(), 1);
    assert_eq!(resources[0].attribute_changes[0].path, "ami");
}

#[test]
fn more_rules_never_add_drift() {
    let p = plan(
        vec![],
        vec![
            resource("a.x", "a", "x", "p", change(&["update"], Some(obj(vec![("k", s("1")), ("tags", s("t"))])), Some(obj(vec![("k", s("2")), ("tags", s("u"))])))),
            resource("b.y", "b", "y", "p", change(&["update"], Some(obj(vec![("k", s("1"))])), Some(obj(vec![("k", s("2"))])))),
        ],
    );
    let few = Config { ignore: vec![rule(&["b"], &[], &[], IgnoreMode::All)] };
    let more = Config {
        ignore: vec![
            rule(&["b"], &[], &[], IgnoreMode::All),
            rule(&[], &[], &["tags"], IgnoreMode::Any),
        ],
    };
    let r1 = detect_drift(&p, &few);
    let r2 = detect_drift(&p, &more);
    assert_eq!(r1.drifted_resources.len(), 1);
    assert_eq!(r2.drifted_resources.len(), 1);
    assert_eq!(r1.drifted_resources[0].attribute_changes.len(), 2);
    assert_eq!(r2.drifted_resources[0].attribute_changes.len(), 1);
    assert_eq!(r2.drifted_resources[0].attribute_changes[0].path, "k");
}
