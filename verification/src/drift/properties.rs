//! Properties of every report that drift detection produces.

use vstd::prelude::*;

use crate::config::{attribute_matches, IgnoreMode, IgnoreRuleView};
use crate::drift::detector::{
    attribute_changes_of, change_hidden, changed_paths, classify, config_only, drift_candidates,
    drift_key_resources, drift_report_of, flat_entries, flat_map, flat_members, ignore_rules_applied,
    ignored_by_rules, inferred_resources, insert_entries, join_key, matches_some_pattern,
    member_count, path_is_sensitive, prune_by_rules, resource_from, rule_action_matches,
    rule_type_matches, sensitive_along, should_ignore, sorted_keys, sorted_keys_ok, worth_reporting,
};
use crate::drift::types::{
    action_name, AttributeChangeView, DriftAction, DriftReportView, DriftSource, DriftedResourceView,
};
use crate::keymap::lemma_sorted_listing;
use crate::seq_util::sublist_by;
use crate::plan::schema::{Change, ResourceChange, TerraformPlan};
use crate::json::{member_lookup, JsonValue};
use crate::text::{
    decimal, key_lt, lemma_split_join, lemma_split_nonempty, lemma_split_without_sep, split_on,
    strings_view,
};

verus! {

/// A sensitive change shows no value: each side is absent or
/// `(sensitive)`.
pub open spec fn masked_if_sensitive(a: AttributeChangeView) -> bool {
    a.sensitive ==> (a.before is None || a.before == Some("(sensitive)"@)) && (a.after is None
        || a.after == Some("(sensitive)"@))
}

/// Every attribute change of the resource is masked where sensitive.
pub open spec fn changes_masked(r: DriftedResourceView) -> bool {
    forall|j: int|
        0 <= j < r.attribute_changes.len() ==> masked_if_sensitive(
            #[trigger] r.attribute_changes[j],
        )
}

/// A property of resources that pruning by the rules keeps holds of every
/// resource that the ignore rules leave.
proof fn lemma_rules_keep(
    rs: Seq<DriftedResourceView>,
    rules: Seq<IgnoreRuleView>,
    p: spec_fn(DriftedResourceView) -> bool,
)
    requires
        forall|i: int| 0 <= i < rs.len() ==> p(#[trigger] rs[i]),
        forall|r: DriftedResourceView| p(r) ==> #[trigger] p(prune_by_rules(r, rules)),
    ensures
        forall|i: int|
            0 <= i < ignore_rules_applied(rs, rules).len() ==> p(
                #[trigger] ignore_rules_applied(rs, rules)[i],
            ),
{
    broadcast use Seq::lemma_filter_contains_rev;

    let keep = |r: DriftedResourceView| !ignored_by_rules(r, rules);
    let a = rs.filter(keep);
    let b = a.map_values(|r: DriftedResourceView| prune_by_rules(r, rules));
    let c = b.filter(|r: DriftedResourceView| worth_reporting(r));
    assert(c == ignore_rules_applied(rs, rules));
    assert forall|i: int| 0 <= i < c.len() implies p(#[trigger] c[i]) by {
        assert(c.contains(c[i]));
        let k = choose|k: int| 0 <= k < b.len() && b[k] == c[i];
        assert(a.contains(a[k]));
        let m = choose|m: int| 0 <= m < rs.len() && rs[m] == a[k];
        assert(p(rs[m]));
        assert(p(prune_by_rules(a[k], rules)));
    }
}

/// `r` is the resource `c`, with some of its attribute changes.
pub open spec fn part_of(r: DriftedResourceView, c: DriftedResourceView) -> bool {
    &&& r.address == c.address
    &&& r.resource_type == c.resource_type
    &&& r.name == c.name
    &&& r.module_address == c.module_address
    &&& r.provider == c.provider
    &&& r.action == c.action
    &&& r.source == c.source
    &&& forall|j: int|
        0 <= j < r.attribute_changes.len() ==> c.attribute_changes.contains(
            #[trigger] r.attribute_changes[j],
        )
}

/// `r` is one of the resources `rs`, with some of its attribute changes.
pub open spec fn part_of_some(r: DriftedResourceView, rs: Seq<DriftedResourceView>) -> bool {
    exists|k: int| 0 <= k < rs.len() && part_of(r, #[trigger] rs[k])
}

/// Ignore rules only hide drift: every resource they leave is one of the
/// resources they were given, with some of its attribute changes.
pub proof fn law_ignore_rules_only_hide(rs: Seq<DriftedResourceView>, rules: Seq<IgnoreRuleView>)
    ensures
        forall|i: int|
            0 <= i < ignore_rules_applied(rs, rules).len() ==> part_of_some(
                #[trigger] ignore_rules_applied(rs, rules)[i],
                rs,
            ),
{
    broadcast use Seq::lemma_filter_contains_rev;

    assert forall|i: int| 0 <= i < rs.len() implies part_of_some(#[trigger] rs[i], rs) by {
        assert forall|j: int| 0 <= j < rs[i].attribute_changes.len() implies rs[i].attribute_changes.contains(
            #[trigger] rs[i].attribute_changes[j],
        ) by {}
        assert(part_of(rs[i], rs[i]));
    }
    assert forall|r: DriftedResourceView| part_of_some(r, rs) implies #[trigger] part_of_some(
        prune_by_rules(r, rules),
        rs,
    ) by {
        let k = choose|k: int| 0 <= k < rs.len() && part_of(r, #[trigger] rs[k]);
        let cs = prune_by_rules(r, rules).attribute_changes;
        assert forall|j: int| 0 <= j < cs.len() implies rs[k].attribute_changes.contains(
            #[trigger] cs[j],
        ) by {
            assert(cs.contains(cs[j]));
            let m = choose|m: int| 0 <= m < r.attribute_changes.len() && r.attribute_changes[m] == cs[j];
            assert(rs[k].attribute_changes.contains(r.attribute_changes[m]));
        }
        assert(part_of(prune_by_rules(r, rules), rs[k]));
    }
    lemma_rules_keep(rs, rules, |r: DriftedResourceView| part_of_some(r, rs));
}

/// A rule that names no resource types, no actions and no attributes hides
/// every resource.
pub proof fn law_catch_all_rule_hides_everything(
    rs: Seq<DriftedResourceView>,
    rules: Seq<IgnoreRuleView>,
    k: int,
)
    requires
        0 <= k < rules.len(),
        rules[k].resource_types.len() == 0,
        rules[k].actions.len() == 0,
        rules[k].attributes.len() == 0,
    ensures
        ignore_rules_applied(rs, rules).len() == 0,
{
    broadcast use Seq::lemma_filter_pred;

    let keep = |r: DriftedResourceView| !ignored_by_rules(r, rules);
    let a = rs.filter(keep);
    if a.len() > 0 {
        assert(keep(a[0]));
        assert(should_ignore(a[0], rules[k]));
    }
    let b = a.map_values(|r: DriftedResourceView| prune_by_rules(r, rules));
    let c = b.filter(|r: DriftedResourceView| worth_reporting(r));
    assert(c == ignore_rules_applied(rs, rules));
    if c.len() > 0 {
        assert(worth_reporting(c[0]));
        rs.filter(keep).map_values(|r: DriftedResourceView| prune_by_rules(r, rules)).lemma_filter_len(
            |r: DriftedResourceView| worth_reporting(r),
        );
    }
}

/// The sensitivity marks of the states present in `c` mark the path `k`:
/// either state's marks when both are present, else the present one's.
pub open spec fn marked_sensitive(c: Change, k: Seq<char>) -> bool {
    match (c.before, c.after) {
        (Some(_), Some(_)) => path_is_sensitive(k, c.before_sensitive) || path_is_sensitive(
            k,
            c.after_sensitive,
        ),
        (Some(_), None) => path_is_sensitive(k, c.before_sensitive),
        (None, Some(_)) => path_is_sensitive(k, c.after_sensitive),
        (None, None) => false,
    }
}

/// Every attribute change whose path the plan marks sensitive is reported
/// as sensitive, and its values are masked: on updates, deletions and
/// creations alike.
pub proof fn law_marked_paths_masked(c: Change)
    ensures
        forall|j: int|
            0 <= j < attribute_changes_of(c).len() ==> (marked_sensitive(
                c,
                (#[trigger] attribute_changes_of(c)[j]).path,
            ) <==> attribute_changes_of(c)[j].sensitive) && masked_if_sensitive(
                attribute_changes_of(c)[j],
            ),
{
}

/// The attribute changes of a resource change are masked where sensitive.
proof fn lemma_changes_of_masked(c: Change)
    ensures
        forall|j: int|
            0 <= j < attribute_changes_of(c).len() ==> masked_if_sensitive(
                #[trigger] attribute_changes_of(c)[j],
            ),
{
}

/// Every candidate of drift detection has the attribute changes of a
/// resource change of the plan.
proof fn lemma_candidate_changes(plan: TerraformPlan, i: int) -> (c: Change)
    requires
        0 <= i < drift_candidates(plan).len(),
    ensures
        drift_candidates(plan)[i].attribute_changes == attribute_changes_of(c),
{
    broadcast use Seq::lemma_filter_map_contains;

    let d = drift_candidates(plan);
    assert(d.contains(d[i]));
    if drift_key_resources(plan).len() > 0 {
        let t = choose|t: ResourceChange|
            #[trigger] plan.resource_drift@.contains(t) && resource_from(
                t,
                DriftSource::ResourceDriftKey,
            ) == Some(d[i]);
        t.change
    } else {
        let t = choose|t: ResourceChange|
            #[trigger] plan.resource_changes@.contains(t) && (if config_only(t) {
                None
            } else {
                resource_from(t, DriftSource::InferredFromChanges)
            }) == Some(d[i]);
        t.change
    }
}

/// The candidates of drift detection are masked where sensitive.
proof fn lemma_candidates_masked(plan: TerraformPlan)
    ensures
        forall|i: int|
            0 <= i < drift_candidates(plan).len() ==> changes_masked(
                #[trigger] drift_candidates(plan)[i],
            ),
{
    let d = drift_candidates(plan);
    assert forall|i: int| 0 <= i < d.len() implies changes_masked(#[trigger] d[i]) by {
        let c = lemma_candidate_changes(plan, i);
        lemma_changes_of_masked(c);
    }
}

/// Sensitive values are masked: every reported attribute change that is
/// sensitive shows `(sensitive)` in place of each value it has.
pub proof fn law_sensitive_values_masked(
    plan: TerraformPlan,
    rules: Seq<IgnoreRuleView>,
    report: DriftReportView,
)
    requires
        drift_report_of(plan, rules, report),
    ensures
        forall|i: int, j: int|
            0 <= i < report.drifted_resources.len() && 0 <= j
                < report.drifted_resources[i].attribute_changes.len() ==> masked_if_sensitive(
                #[trigger] report.drifted_resources[i].attribute_changes[j],
            ),
{
    broadcast use Seq::lemma_filter_contains_rev;

    lemma_candidates_masked(plan);
    assert forall|r: DriftedResourceView| changes_masked(r) implies #[trigger] changes_masked(
        prune_by_rules(r, rules),
    ) by {
        let cs = prune_by_rules(r, rules).attribute_changes;
        assert forall|j: int| 0 <= j < cs.len() implies masked_if_sensitive(#[trigger] cs[j]) by {
            assert(cs.contains(cs[j]));
            let k = choose|k: int|
                0 <= k < r.attribute_changes.len() && r.attribute_changes[k] == cs[j];
            assert(masked_if_sensitive(r.attribute_changes[k]));
        }
    }
    lemma_rules_keep(drift_candidates(plan), rules, |r: DriftedResourceView| changes_masked(r));
    let rs = report.drifted_resources;
    assert forall|i: int, j: int|
        0 <= i < rs.len() && 0 <= j < rs[i].attribute_changes.len() implies masked_if_sensitive(
        #[trigger] rs[i].attribute_changes[j],
    ) by {
        assert(changes_masked(rs[i]));
    }
}

/// The source that drift detection gives every resource of a plan.
pub open spec fn expected_source(plan: TerraformPlan) -> DriftSource {
    if drift_key_resources(plan).len() > 0 {
        DriftSource::ResourceDriftKey
    } else {
        DriftSource::InferredFromChanges
    }
}

/// The resource has the source of its plan, and is no plain creation when
/// inferred.
pub open spec fn sourced_from(r: DriftedResourceView, plan: TerraformPlan) -> bool {
    &&& r.source == expected_source(plan)
    &&& r.source == DriftSource::InferredFromChanges ==> r.action != DriftAction::Create
}

/// Every candidate of drift detection has the source of its plan.
proof fn lemma_candidates_sourced(plan: TerraformPlan)
    ensures
        forall|i: int|
            0 <= i < drift_candidates(plan).len() ==> sourced_from(
                #[trigger] drift_candidates(plan)[i],
                plan,
            ),
{
    broadcast use Seq::lemma_filter_map_contains;

    let d = drift_candidates(plan);
    assert forall|i: int| 0 <= i < d.len() implies sourced_from(#[trigger] d[i], plan) by {
        assert(d.contains(d[i]));
        if drift_key_resources(plan).len() == 0 {
            assert(d == inferred_resources(plan));
            let t = choose|t: ResourceChange|
                #[trigger] plan.resource_changes@.contains(t) && (if config_only(t) {
                    None
                } else {
                    resource_from(t, DriftSource::InferredFromChanges)
                }) == Some(d[i]);
            let acts = strings_view(t.change.actions@);
            if d[i].action == DriftAction::Create {
                assert(acts.len() == 1 && acts[0] == "create"@);
                assert(acts =~= seq!["create"@]);
            }
        }
    }
}

/// Where reported drift comes from: when the plan's `resource_drift` list
/// describes any drift, every reported resource comes from that list;
/// otherwise every one is inferred from `resource_changes`, and none of
/// those is a plain creation.
pub proof fn law_drift_sources(
    plan: TerraformPlan,
    rules: Seq<IgnoreRuleView>,
    report: DriftReportView,
)
    requires
        drift_report_of(plan, rules, report),
    ensures
        forall|i: int|
            0 <= i < report.drifted_resources.len() ==> (
            #[trigger] report.drifted_resources[i]).source == expected_source(plan),
        forall|i: int|
            0 <= i < report.drifted_resources.len() && (
            #[trigger] report.drifted_resources[i]).source == DriftSource::InferredFromChanges
                ==> report.drifted_resources[i].action != DriftAction::Create,
{
    lemma_candidates_sourced(plan);
    lemma_rules_keep(drift_candidates(plan), rules, |r: DriftedResourceView| sourced_from(r, plan));
    let rs = report.drifted_resources;
    assert forall|i: int| 0 <= i < rs.len() implies sourced_from(#[trigger] rs[i], plan) by {}
}

/// No resource is reported without an attribute change, unless it is
/// deleted.
pub proof fn law_reported_resources_changed(
    plan: TerraformPlan,
    rules: Seq<IgnoreRuleView>,
    report: DriftReportView,
)
    requires
        drift_report_of(plan, rules, report),
    ensures
        forall|i: int|
            0 <= i < report.drifted_resources.len() ==> worth_reporting(
                #[trigger] report.drifted_resources[i],
            ),
{
    broadcast use Seq::lemma_filter_pred;

}

/// The attribute changes of the resource are listed in strictly increasing
/// path order, so no path is listed twice.
pub open spec fn paths_in_order(r: DriftedResourceView) -> bool {
    forall|i: int, j: int|
        0 <= i < j < r.attribute_changes.len() ==> key_lt(
            #[trigger] r.attribute_changes[i].path,
            #[trigger] r.attribute_changes[j].path,
        )
}

/// Inserting entries into a map with a finite domain leaves it finite.
proof fn lemma_insert_entries_finite(m: Map<Seq<char>, Seq<char>>, es: Seq<(Seq<char>, Seq<char>)>)
    requires
        m.dom().finite(),
    ensures
        insert_entries(m, es).dom().finite(),
    decreases es.len(),
{
    if es.len() > 0 {
        lemma_insert_entries_finite(m, es.drop_last());
    }
}

/// The sorted listing of a finite set of keys is sorted and lists the set.
proof fn lemma_sorted_keys_valid(d: Set<Seq<char>>)
    requires
        d.finite(),
    ensures
        sorted_keys_ok(sorted_keys(d), d),
{
    let ks = lemma_sorted_listing(d);
    assert(sorted_keys_ok(ks, d));
}

/// The attribute changes of a resource change are in path order.
proof fn lemma_changes_of_in_order(c: Change)
    ensures
        forall|i: int, j: int|
            0 <= i < j < attribute_changes_of(c).len() ==> key_lt(
                #[trigger] attribute_changes_of(c)[i].path,
                #[trigger] attribute_changes_of(c)[j].path,
            ),
{
    broadcast use vstd::set::group_set_axioms, vstd::set_lib::lemma_set_subset_finite;

    match (c.before, c.after) {
        (Some(bv), Some(av)) => {
            let b = flat_map(bv);
            let a = flat_map(av);
            lemma_insert_entries_finite(Map::empty(), flat_entries(bv, Seq::empty()));
            lemma_insert_entries_finite(Map::empty(), flat_entries(av, Seq::empty()));
            let d = changed_paths(b, a);
            assert(d.subset_of(b.dom().union(a.dom())));
            lemma_sorted_keys_valid(d);
        },
        (Some(bv), None) => {
            lemma_insert_entries_finite(Map::empty(), flat_entries(bv, Seq::empty()));
            lemma_sorted_keys_valid(flat_map(bv).dom());
        },
        (None, Some(av)) => {
            lemma_insert_entries_finite(Map::empty(), flat_entries(av, Seq::empty()));
            lemma_sorted_keys_valid(flat_map(av).dom());
        },
        (None, None) => {},
    }
}

/// The candidates of drift detection list their changes in path order.
proof fn lemma_candidates_in_order(plan: TerraformPlan)
    ensures
        forall|i: int|
            0 <= i < drift_candidates(plan).len() ==> paths_in_order(
                #[trigger] drift_candidates(plan)[i],
            ),
{
    let d = drift_candidates(plan);
    assert forall|i: int| 0 <= i < d.len() implies paths_in_order(#[trigger] d[i]) by {
        let c = lemma_candidate_changes(plan, i);
        lemma_changes_of_in_order(c);
    }
}

/// Each reported resource lists its attribute changes in strictly
/// increasing path order, so no path appears twice.
pub proof fn law_attribute_paths_in_order(
    plan: TerraformPlan,
    rules: Seq<IgnoreRuleView>,
    report: DriftReportView,
)
    requires
        drift_report_of(plan, rules, report),
    ensures
        forall|i: int|
            0 <= i < report.drifted_resources.len() ==> paths_in_order(
                #[trigger] report.drifted_resources[i],
            ),
{
    lemma_candidates_in_order(plan);
    assert forall|r: DriftedResourceView| paths_in_order(r) implies #[trigger] paths_in_order(
        prune_by_rules(r, rules),
    ) by {
        let h = |a: AttributeChangeView| !change_hidden(r, rules, a);
        let lt = |x: AttributeChangeView, y: AttributeChangeView| key_lt(x.path, y.path);
        crate::seq_util::lemma_filter_keeps_order(r.attribute_changes, h, lt);
    }
    lemma_rules_keep(drift_candidates(plan), rules, |r: DriftedResourceView| paths_in_order(r));
}

/// The change shows different values before and after, unless it is
/// masked as sensitive.
pub open spec fn shows_a_difference(a: AttributeChangeView) -> bool {
    !a.sensitive ==> a.before != a.after
}

/// Every attribute change of the resource shows a difference.
pub open spec fn changes_differ(r: DriftedResourceView) -> bool {
    forall|j: int|
        0 <= j < r.attribute_changes.len() ==> shows_a_difference(#[trigger] r.attribute_changes[j])
}

/// The attribute changes of a resource change show differences.
proof fn lemma_changes_of_differ(c: Change)
    ensures
        forall|j: int|
            0 <= j < attribute_changes_of(c).len() ==> shows_a_difference(
                #[trigger] attribute_changes_of(c)[j],
            ),
{
    broadcast use vstd::set::group_set_axioms, vstd::set_lib::lemma_set_subset_finite;

    match (c.before, c.after) {
        (Some(bv), Some(av)) => {
            let b = flat_map(bv);
            let a = flat_map(av);
            lemma_insert_entries_finite(Map::empty(), flat_entries(bv, Seq::empty()));
            lemma_insert_entries_finite(Map::empty(), flat_entries(av, Seq::empty()));
            let d = changed_paths(b, a);
            assert(d.subset_of(b.dom().union(a.dom())));
            lemma_sorted_keys_valid(d);
            let ks = sorted_keys(d);
            assert forall|j: int| 0 <= j < attribute_changes_of(c).len() implies shows_a_difference(
                #[trigger] attribute_changes_of(c)[j],
            ) by {
                assert(ks.contains(ks[j]));
                assert(d.contains(ks[j]));
            }
        },
        _ => {},
    }
}

/// No reported attribute change shows the same value before and after,
/// unless it is masked as sensitive: unchanged attributes are not drift.
pub proof fn law_unchanged_attributes_not_reported(
    plan: TerraformPlan,
    rules: Seq<IgnoreRuleView>,
    report: DriftReportView,
)
    requires
        drift_report_of(plan, rules, report),
    ensures
        forall|i: int, j: int|
            0 <= i < report.drifted_resources.len() && 0 <= j
                < report.drifted_resources[i].attribute_changes.len() ==> shows_a_difference(
                #[trigger] report.drifted_resources[i].attribute_changes[j],
            ),
{
    broadcast use Seq::lemma_filter_contains_rev;

    let d = drift_candidates(plan);
    assert forall|i: int| 0 <= i < d.len() implies changes_differ(#[trigger] d[i]) by {
        let c = lemma_candidate_changes(plan, i);
        lemma_changes_of_differ(c);
    }
    assert forall|r: DriftedResourceView| changes_differ(r) implies #[trigger] changes_differ(
        prune_by_rules(r, rules),
    ) by {
        let cs = prune_by_rules(r, rules).attribute_changes;
        assert forall|j: int| 0 <= j < cs.len() implies shows_a_difference(#[trigger] cs[j]) by {
            assert(cs.contains(cs[j]));
            let k = choose|k: int|
                0 <= k < r.attribute_changes.len() && r.attribute_changes[k] == cs[j];
            assert(shows_a_difference(r.attribute_changes[k]));
        }
    }
    lemma_rules_keep(d, rules, |r: DriftedResourceView| changes_differ(r));
    let rs = report.drifted_resources;
    assert forall|i: int, j: int|
        0 <= i < rs.len() && 0 <= j < rs[i].attribute_changes.len() implies shows_a_difference(
        #[trigger] rs[i].attribute_changes[j],
    ) by {
        assert(changes_differ(rs[i]));
    }
}

/// `c2` is `c1` the other way round: its states and their sensitivity
/// marks swapped.
pub open spec fn swapped(c1: Change, c2: Change) -> bool {
    &&& c2.before == c1.after
    &&& c2.after == c1.before
    &&& c2.before_sensitive == c1.after_sensitive
    &&& c2.after_sensitive == c1.before_sensitive
}

/// Swapping the states of a change mirrors its attribute changes: the
/// same paths in the same order, equally sensitive, with the values
/// before and after exchanged.
pub proof fn law_swapping_states_mirrors_changes(c1: Change, c2: Change)
    requires
        swapped(c1, c2),
    ensures
        attribute_changes_of(c2).len() == attribute_changes_of(c1).len(),
        forall|i: int|
            0 <= i < attribute_changes_of(c1).len() ==> {
                let a = #[trigger] attribute_changes_of(c1)[i];
                let b = attribute_changes_of(c2)[i];
                &&& b.path == a.path
                &&& b.sensitive == a.sensitive
                &&& b.before == a.after
                &&& b.after == a.before
            },
{
    match (c1.before, c1.after) {
        (Some(bv), Some(av)) => {
            let b = flat_map(bv);
            let a = flat_map(av);
            assert(changed_paths(a, b) =~= changed_paths(b, a));
        },
        _ => {},
    }
}

/// Every rule of `rules1` is also one of `rules2`.
pub open spec fn rules_included(rules1: Seq<IgnoreRuleView>, rules2: Seq<IgnoreRuleView>) -> bool {
    forall|i: int| 0 <= i < rules1.len() ==> rules2.contains(#[trigger] rules1[i])
}

/// `r` is the resource `c`, with an order-preserving sub-list of its
/// attribute changes.
pub open spec fn narrower(r: DriftedResourceView, c: DriftedResourceView) -> bool {
    &&& r.address == c.address
    &&& r.resource_type == c.resource_type
    &&& r.name == c.name
    &&& r.module_address == c.module_address
    &&& r.provider == c.provider
    &&& r.action == c.action
    &&& r.source == c.source
    &&& sublist_by(
        r.attribute_changes,
        c.attribute_changes,
        |x: AttributeChangeView, y: AttributeChangeView| x == y,
    )
}

/// What the ignore rules make of one resource: nothing, or the resource
/// pruned by the `any`-mode rules.
pub open spec fn rules_step(rules: Seq<IgnoreRuleView>, r: DriftedResourceView) -> Option<
    DriftedResourceView,
> {
    if ignored_by_rules(r, rules) {
        None
    } else if worth_reporting(prune_by_rules(r, rules)) {
        Some(prune_by_rules(r, rules))
    } else {
        None
    }
}

/// Applying the ignore rules is taking each resource's step in turn.
proof fn lemma_rules_by_steps(rs: Seq<DriftedResourceView>, rules: Seq<IgnoreRuleView>)
    ensures
        ignore_rules_applied(rs, rules) == rs.filter_map(
            |r: DriftedResourceView| rules_step(rules, r),
        ),
{
    let keep = |r: DriftedResourceView| !ignored_by_rules(r, rules);
    let prune = |r: DriftedResourceView| prune_by_rules(r, rules);
    let worth = |r: DriftedResourceView| worth_reporting(r);
    let id = |r: DriftedResourceView| r;
    let g1 = |x: DriftedResourceView|
        if keep(x) {
            Some(prune(x))
        } else {
            None
        };
    let g2 = |y: DriftedResourceView|
        if worth(y) {
            Some(id(y))
        } else {
            None
        };
    let step = |r: DriftedResourceView| rules_step(rules, r);
    crate::seq_util::lemma_filter_then_map(rs, keep, prune);
    let t = rs.filter(keep).map_values(prune);
    crate::seq_util::lemma_filter_then_map(t, worth, id);
    assert(t.filter(worth).map_values(id) =~= t.filter(worth));
    crate::seq_util::lemma_filter_map_twice(rs, g1, g2, step);
    assert(ignore_rules_applied(rs, rules) == t.filter(worth));
}

/// With more rules, what the rules leave is an order-preserving sub-list
/// of what fewer rules leave, each resource with an order-preserving
/// sub-list of its attribute changes there.
pub proof fn law_more_rules_hide_more(
    rs: Seq<DriftedResourceView>,
    rules1: Seq<IgnoreRuleView>,
    rules2: Seq<IgnoreRuleView>,
)
    requires
        rules_included(rules1, rules2),
    ensures
        sublist_by(
            ignore_rules_applied(rs, rules2),
            ignore_rules_applied(rs, rules1),
            |x: DriftedResourceView, y: DriftedResourceView| narrower(x, y),
        ),
{
    broadcast use Seq::lemma_filter_contains_rev, Seq::lemma_filter_contains, Seq::lemma_filter_pred;

    let s1 = |r: DriftedResourceView| rules_step(rules1, r);
    let s2 = |r: DriftedResourceView| rules_step(rules2, r);
    let rel = |x: DriftedResourceView, y: DriftedResourceView| narrower(x, y);
    lemma_rules_by_steps(rs, rules1);
    lemma_rules_by_steps(rs, rules2);
    assert forall|r: DriftedResourceView| (#[trigger] s2(r)) is Some implies s1(r) is Some && rel(
        s2(r)->0,
        s1(r)->0,
    ) by {
        assert(!ignored_by_rules(r, rules1)) by {
            if ignored_by_rules(r, rules1) {
                let j = choose|j: int| 0 <= j < rules1.len() && should_ignore(r, #[trigger] rules1[j]);
                assert(rules2.contains(rules1[j]));
                let j2 = choose|j2: int| 0 <= j2 < rules2.len() && rules2[j2] == rules1[j];
                assert(should_ignore(r, rules2[j2]));
            }
        }
        let x = prune_by_rules(r, rules2);
        let p1 = prune_by_rules(r, rules1);
        let cs = r.attribute_changes;
        let h1 = |c: AttributeChangeView| !change_hidden(r, rules1, c);
        let h2 = |c: AttributeChangeView| !change_hidden(r, rules2, c);
        assert forall|c: AttributeChangeView| #[trigger] h2(c) implies h1(c) by {
            if change_hidden(r, rules1, c) {
                let j1 = choose|j1: int|
                    0 <= j1 < rules1.len() && (#[trigger] rules1[j1]).mode == IgnoreMode::Any
                        && rule_type_matches(r, rules1[j1]) && rule_action_matches(r, rules1[j1])
                        && matches_some_pattern(c.path, rules1[j1].attributes);
                assert(rules2.contains(rules1[j1]));
                let j2 = choose|j2: int| 0 <= j2 < rules2.len() && rules2[j2] == rules1[j1];
                assert(rules2[j2].mode == IgnoreMode::Any);
            }
        }
        crate::seq_util::lemma_filter_commute(cs, h1, h2);
        assert forall|i: int| 0 <= i < cs.filter(h2).len() implies h1(#[trigger] cs.filter(h2)[i]) by {
            assert(h2(cs.filter(h2)[i]));
        }
        crate::seq_util::lemma_filter_keeps_all(cs.filter(h2), h1);
        assert(x.attribute_changes == p1.attribute_changes.filter(h2));
        crate::seq_util::lemma_filter_sublist(p1.attribute_changes, h2);
        assert(worth_reporting(x));
        if x.attribute_changes.len() > 0 {
            assert(p1.attribute_changes.filter(h2).contains(x.attribute_changes[0]));
        }
        assert(worth_reporting(p1));
        assert(s1(r) == Some(p1));
        assert(narrower(x, p1));
    }
    crate::seq_util::lemma_filter_map_sublist(rs, s1, s2, rel);
}

/// More ignore rules never add drift: what is reported under rules that
/// include another set of rules is an order-preserving sub-list of what
/// that set reports, each resource with an order-preserving sub-list of
/// its attribute changes there.
pub proof fn law_more_rules_never_add_drift(
    plan: TerraformPlan,
    rules1: Seq<IgnoreRuleView>,
    rules2: Seq<IgnoreRuleView>,
    report1: DriftReportView,
    report2: DriftReportView,
)
    requires
        rules_included(rules1, rules2),
        drift_report_of(plan, rules1, report1),
        drift_report_of(plan, rules2, report2),
    ensures
        sublist_by(
            report2.drifted_resources,
            report1.drifted_resources,
            |x: DriftedResourceView, y: DriftedResourceView| narrower(x, y),
        ),
{
    law_more_rules_hide_more(drift_candidates(plan), rules1, rules2);
}

/// An `all`-mode rule with attribute patterns hides a resource only when
/// every one of its attribute changes matches a pattern: a single change
/// that matches none of the rule's patterns keeps the resource.
pub proof fn law_all_mode_needs_every_change(r: DriftedResourceView, rule: IgnoreRuleView, i: int)
    requires
        rule.mode == IgnoreMode::All,
        rule.attributes.len() > 0,
        0 <= i < r.attribute_changes.len(),
        forall|k: int|
            0 <= k < rule.attributes.len() ==> !attribute_matches(
                r.attribute_changes[i].path,
                #[trigger] rule.attributes[k],
            ),
    ensures
        !should_ignore(r, rule),
{
    assert(!matches_some_pattern(r.attribute_changes[i].path, rule.attributes));
}

/// An `all`-mode rule with attribute patterns whose types and actions admit
/// a resource hides it when it has changes and every change matches one of
/// the rule's patterns.
pub proof fn law_all_mode_hides_fully_matched(r: DriftedResourceView, rule: IgnoreRuleView)
    requires
        rule.mode == IgnoreMode::All,
        rule.attributes.len() > 0,
        rule.resource_types.len() == 0 || rule.resource_types.contains(r.resource_type),
        rule.actions.len() == 0 || rule.actions.contains(action_name(r.action)),
        r.attribute_changes.len() > 0,
        forall|i: int|
            0 <= i < r.attribute_changes.len() ==> exists|k: int|
                0 <= k < rule.attributes.len() && attribute_matches(
                    (#[trigger] r.attribute_changes[i]).path,
                    rule.attributes[k],
                ),
    ensures
        should_ignore(r, rule),
{
    assert forall|i: int| 0 <= i < r.attribute_changes.len() implies matches_some_pattern(
        #[trigger] r.attribute_changes[i].path,
        rule.attributes,
    ) by {
        let k = choose|k: int|
            0 <= k < rule.attributes.len() && attribute_matches(
                r.attribute_changes[i].path,
                rule.attributes[k],
            );
    }
}

/// A rule that lists resource types hides no resource of another type, and
/// a rule that lists actions hides no resource with another action.
pub proof fn law_rule_types_and_actions_restrict(r: DriftedResourceView, rule: IgnoreRuleView)
    requires
        (rule.resource_types.len() > 0 && !rule.resource_types.contains(r.resource_type)) || (
        rule.actions.len() > 0 && !rule.actions.contains(action_name(r.action))),
    ensures
        !should_ignore(r, rule),
{
}

/// An `any`-mode rule with attribute patterns never hides a whole resource;
/// it only removes matching attribute changes.
pub proof fn law_any_mode_keeps_resources(r: DriftedResourceView, rule: IgnoreRuleView)
    requires
        rule.mode == IgnoreMode::Any,
        rule.attributes.len() > 0,
    ensures
        !should_ignore(r, rule),
{
}

/// When `resource_drift` describes no drift, every resource change of
/// `resource_changes` whose actions are drift is a candidate, inferred,
/// unless its actions are exactly `["no-op"]` or `["create"]`: only those
/// two are skipped.
pub proof fn law_fallback_skips_only_noop_and_create(plan: TerraformPlan, k: int)
    requires
        drift_key_resources(plan).len() == 0,
        0 <= k < plan.resource_changes@.len(),
        strings_view(plan.resource_changes@[k].change.actions@) != seq!["no-op"@],
        strings_view(plan.resource_changes@[k].change.actions@) != seq!["create"@],
        resource_from(plan.resource_changes@[k], DriftSource::InferredFromChanges) is Some,
    ensures
        drift_candidates(plan).contains(
            resource_from(plan.resource_changes@[k], DriftSource::InferredFromChanges)->0,
        ),
{
    let rcs = plan.resource_changes@;
    let f = |rc: ResourceChange|
        if config_only(rc) {
            None
        } else {
            resource_from(rc, DriftSource::InferredFromChanges)
        };
    lemma_filter_map_keeps(rcs, f, k);
}

/// Every entry of the plan's `resource_drift` list whose actions are drift
/// is a candidate, marked as coming from that list (and then nothing is
/// inferred from `resource_changes`).
pub proof fn law_drift_entries_are_candidates(plan: TerraformPlan, k: int)
    requires
        0 <= k < plan.resource_drift@.len(),
        resource_from(plan.resource_drift@[k], DriftSource::ResourceDriftKey) is Some,
    ensures
        drift_candidates(plan).contains(
            resource_from(plan.resource_drift@[k], DriftSource::ResourceDriftKey)->0,
        ),
        drift_candidates(plan) == drift_key_resources(plan),
{
    let f = |rc: ResourceChange| resource_from(rc, DriftSource::ResourceDriftKey);
    lemma_filter_map_keeps(plan.resource_drift@, f, k);
    assert(drift_key_resources(plan).len() > 0);
}

/// A resource change describes a drifted resource exactly when its
/// actions are drift; the resource then has the change's address, type,
/// name, module, provider and attribute changes, the action its actions
/// are classified as, and the source it was read from.
pub proof fn law_resource_describes_change(rc: ResourceChange, source: DriftSource)
    ensures
        resource_from(rc, source) is Some <==> classify(strings_view(rc.change.actions@)) is Some,
        resource_from(rc, source) matches Some(r) ==> {
            &&& r.address == rc.address@
            &&& r.resource_type == rc.resource_type@
            &&& r.name == rc.name@
            &&& r.module_address == rc.module_address.deep_view()
            &&& r.provider == rc.provider_name@
            &&& Some(r.action) == classify(strings_view(rc.change.actions@))
            &&& r.attribute_changes == attribute_changes_of(rc.change)
            &&& r.source == source
        },
{
}

/// Mapping-and-filtering keeps what the step makes of each element.
proof fn lemma_filter_map_keeps<A, B>(s: Seq<A>, f: spec_fn(A) -> Option<B>, k: int)
    requires
        0 <= k < s.len(),
        f(s[k]) is Some,
    ensures
        s.filter_map(f).contains(f(s[k])->0),
    decreases s.len(),
{
    let rest = s.drop_last();
    if k == s.len() - 1 {
        let y = f(s[k])->0;
        assert(s.filter_map(f) == rest.filter_map(f) + seq![y]);
        assert(s.filter_map(f)[rest.filter_map(f).len() as int] == y);
    } else {
        lemma_filter_map_keeps(rest, f, k);
        assert(rest[k] == s[k]);
        let i = choose|i: int| 0 <= i < rest.filter_map(f).len() && rest.filter_map(f)[i] == f(s[k])->0;
        match f(s.last()) {
            Some(y) => {
                assert(s.filter_map(f)[i] == rest.filter_map(f)[i]);
            },
            None => {},
        }
    }
}

/// Without ignore rules, a drifted replacement (or any other change that
/// is not config-only) inferred from `resource_changes` is reported
/// whenever it has attribute changes or is a deletion.
pub proof fn law_fallback_reports_inferred_drift(plan: TerraformPlan, report: DriftReportView, k: int)
    requires
        drift_report_of(plan, Seq::empty(), report),
        drift_key_resources(plan).len() == 0,
        0 <= k < plan.resource_changes@.len(),
        strings_view(plan.resource_changes@[k].change.actions@) != seq!["no-op"@],
        strings_view(plan.resource_changes@[k].change.actions@) != seq!["create"@],
        resource_from(plan.resource_changes@[k], DriftSource::InferredFromChanges) matches Some(d)
            && worth_reporting(d),
    ensures
        report.drifted_resources.contains(
            resource_from(plan.resource_changes@[k], DriftSource::InferredFromChanges)->0,
        ),
{
    broadcast use Seq::lemma_filter_contains;

    law_fallback_skips_only_noop_and_create(plan, k);
    let d = resource_from(plan.resource_changes@[k], DriftSource::InferredFromChanges)->0;
    let rs = drift_candidates(plan);
    let rules = Seq::<IgnoreRuleView>::empty();
    let keep = |r: DriftedResourceView| !ignored_by_rules(r, rules);
    let m = choose|m: int| 0 <= m < rs.len() && rs[m] == d;
    assert(keep(rs[m]));
    let a = rs.filter(keep);
    assert(a.contains(d));
    let q = choose|q: int| 0 <= q < a.len() && a[q] == d;
    let b = a.map_values(|r: DriftedResourceView| prune_by_rules(r, rules));
    assert(d.attribute_changes.filter(|c: AttributeChangeView| !change_hidden(d, rules, c))
        =~= d.attribute_changes) by {
        crate::seq_util::lemma_filter_keeps_all(
            d.attribute_changes,
            |c: AttributeChangeView| !change_hidden(d, rules, c),
        );
    }
    assert(prune_by_rules(d, rules) == d);
    assert(b[q] == d);
    assert(b.filter(|r: DriftedResourceView| worth_reporting(r)).contains(d));
}


/// An action list is drift exactly when it is not empty and not a lone
/// `read` or `no-op`: every other list is classified as some action.
pub proof fn law_classify_drift_lists(actions: Seq<Seq<char>>)
    ensures
        classify(actions) is None <==> (actions.len() == 0 || actions == seq!["read"@] || actions
            == seq!["no-op"@]),
{
    reveal_strlit("read");
    reveal_strlit("no-op");
    reveal_strlit("update");
    reveal_strlit("delete");
    reveal_strlit("create");
    if actions.len() == 1 {
        if actions[0] == "read"@ {
            assert(actions =~= seq!["read"@]);
        }
        if actions[0] == "no-op"@ {
            assert(actions =~= seq!["no-op"@]);
        }
        if actions == seq!["read"@] {
            assert(actions[0] == "read"@);
        }
        if actions == seq!["no-op"@] {
            assert(actions[0] == "no-op"@);
        }
        assert("read"@.len() == 4 && "no-op"@.len() == 5 && "update"@.len() == 6);
        assert("delete"@.len() == 6 && "create"@.len() == 6);
        assert(classify(actions) is None ==> actions[0] == "read"@ || actions[0] == "no-op"@);
        assert(actions[0] == "read"@ ==> classify(actions) is None);
        assert(actions[0] == "no-op"@ ==> classify(actions) is None);
    } else {
        assert(actions != seq!["read"@]);
        assert(actions != seq!["no-op"@]);
    }
}

/// A replacement is an action list of two entries that holds both `create`
/// and `delete`, in either order; nothing else is a replacement.
pub proof fn law_classify_replace(actions: Seq<Seq<char>>)
    ensures
        classify(actions) == Some(DriftAction::Replace) <==> (actions.len() == 2 && actions.contains(
            "create"@,
        ) && actions.contains("delete"@)),
{
    reveal_strlit("create");
    reveal_strlit("delete");
    if actions.len() == 2 && actions.contains("create"@) && actions.contains("delete"@) {
        let i = choose|i: int| 0 <= i < actions.len() && actions[i] == "create"@;
        let j = choose|j: int| 0 <= j < actions.len() && actions[j] == "delete"@;
        assert("create"@[0] != "delete"@[0]);
        assert(i != j);
    }
    if classify(actions) == Some(DriftAction::Replace) {
        assert(actions[0] == "create"@ || actions[1] == "create"@);
        assert(actions[0] == "delete"@ || actions[1] == "delete"@);
    }
}

/// A lone `update`, `delete` or `create` is classified as the action of
/// that name, and a deletion or a creation comes from nothing else.
pub proof fn law_classify_single_actions(actions: Seq<Seq<char>>)
    ensures
        actions.len() == 1 && (actions[0] == "update"@ || actions[0] == "delete"@ || actions[0]
            == "create"@) ==> (classify(actions) matches Some(a) && action_name(a) == actions[0]),
        classify(actions) == Some(DriftAction::Delete) <==> actions == seq!["delete"@],
        classify(actions) == Some(DriftAction::Create) <==> actions == seq!["create"@],
{
    reveal_strlit("update");
    reveal_strlit("delete");
    reveal_strlit("create");
    reveal_strlit("read");
    reveal_strlit("no-op");
    if actions.len() == 1 {
        if actions[0] == "delete"@ {
            assert(actions =~= seq!["delete"@]);
        }
        if actions[0] == "create"@ {
            assert(actions =~= seq!["create"@]);
        }
        if actions == seq!["delete"@] {
            assert(actions[0] == "delete"@);
        }
        if actions == seq!["create"@] {
            assert(actions[0] == "create"@);
        }
        assert("create"@[0] != "delete"@[0]);
        assert("update"@[0] != "delete"@[0]);
        assert("update"@[0] != "create"@[0]);
    } else {
        assert(actions != seq!["delete"@]);
        assert(actions != seq!["create"@]);
    }
}

/// An `any`-mode rule whose resource types and actions admit a reported
/// resource leaves none of its attribute changes that match one of the
/// rule's patterns.
pub proof fn law_any_mode_hides_matching_changes(
    rs: Seq<DriftedResourceView>,
    rules: Seq<IgnoreRuleView>,
    k: int,
    j: int,
    i: int,
)
    requires
        0 <= k < ignore_rules_applied(rs, rules).len(),
        0 <= j < ignore_rules_applied(rs, rules)[k].attribute_changes.len(),
        0 <= i < rules.len(),
        rules[i].mode == IgnoreMode::Any,
        rules[i].resource_types.len() == 0 || rules[i].resource_types.contains(
            ignore_rules_applied(rs, rules)[k].resource_type,
        ),
        rules[i].actions.len() == 0 || rules[i].actions.contains(
            action_name(ignore_rules_applied(rs, rules)[k].action),
        ),
    ensures
        forall|p: int|
            0 <= p < rules[i].attributes.len() ==> !attribute_matches(
                ignore_rules_applied(rs, rules)[k].attribute_changes[j].path,
                #[trigger] rules[i].attributes[p],
            ),
{
    broadcast use Seq::lemma_filter_contains_rev;
    broadcast use vstd::seq_lib::group_filter_ensures;

    let keep = |r: DriftedResourceView| !ignored_by_rules(r, rules);
    let a = rs.filter(keep);
    let b = a.map_values(|r: DriftedResourceView| prune_by_rules(r, rules));
    let c = b.filter(|r: DriftedResourceView| worth_reporting(r));
    assert(c == ignore_rules_applied(rs, rules));
    assert(c.contains(c[k]));
    let m = choose|m: int| 0 <= m < b.len() && b[m] == c[k];
    let r = a[m];
    assert(b[m] == prune_by_rules(r, rules));
    let hidden = |x: AttributeChangeView| !change_hidden(r, rules, x);
    let cs = r.attribute_changes.filter(hidden);
    assert(c[k].attribute_changes == cs);
    let x = cs[j];
    assert(hidden(x));
    assert(rule_type_matches(r, rules[i]));
    assert(rule_action_matches(r, rules[i]));
    assert forall|p: int| 0 <= p < rules[i].attributes.len() implies !attribute_matches(
        x.path,
        #[trigger] rules[i].attributes[p],
    ) by {
        if attribute_matches(x.path, rules[i].attributes[p]) {
            assert(matches_some_pattern(x.path, rules[i].attributes));
            assert(change_hidden(r, rules, x));
        }
    }
}

/// Flattening a scalar gives its text under its path: `null`, `true` or
/// `false`, a number's digits as written, a string's characters. A scalar
/// with an empty path gives nothing.
pub proof fn law_flatten_scalar(v: JsonValue, path: Seq<char>)
    requires
        !(v is Object),
        !(v is Array),
    ensures
        flat_entries(v, path) == if path.len() == 0 {
            Seq::<(Seq<char>, Seq<char>)>::empty()
        } else {
            seq![
                (
                    path,
                    match v {
                        JsonValue::Null => "null"@,
                        JsonValue::Bool(b) => if b {
                            "true"@
                        } else {
                            "false"@
                        },
                        JsonValue::Number(n) => n@,
                        JsonValue::Str(s) => s@,
                        _ => Seq::<char>::empty(),
                    },
                ),
            ]
        },
{
}

/// The first `n` members of an object or array include the leaves of
/// member `i < n`.
proof fn lemma_flat_members_include(v: JsonValue, prefix: Seq<char>, n: nat, i: int)
    requires
        0 <= i < n <= member_count(v),
        v is Object || v is Array,
    ensures
        forall|e: (Seq<char>, Seq<char>)|
            #![trigger flat_members(v, prefix, n).contains(e)]
            (match v {
                JsonValue::Object(ms) => flat_entries(ms@[i].1, if prefix.len() == 0 {
                    ms@[i].0@
                } else {
                    prefix + seq!['.'] + ms@[i].0@
                }),
                JsonValue::Array(xs) => flat_entries(xs@[i], if prefix.len() == 0 {
                    decimal(i as nat)
                } else {
                    prefix + seq!['.'] + decimal(i as nat)
                }),
                _ => Seq::empty(),
            }).contains(e) ==> flat_members(v, prefix, n).contains(e),
    decreases n,
{
    let front = flat_members(v, prefix, (n - 1) as nat);
    let here = match v {
        JsonValue::Object(ms) => flat_entries(ms@[n - 1].1, join_key(prefix, ms@[n - 1].0@)),
        JsonValue::Array(xs) => flat_entries(xs@[n - 1], join_key(prefix, decimal((n - 1) as nat))),
        _ => Seq::empty(),
    };
    assert(flat_members(v, prefix, n) == front + here);
    if i < n - 1 {
        lemma_flat_members_include(v, prefix, (n - 1) as nat, i);
    }
    assert forall|e: (Seq<char>, Seq<char>)|
        (match v {
            JsonValue::Object(ms) => flat_entries(ms@[i].1, if prefix.len() == 0 {
                    ms@[i].0@
                } else {
                    prefix + seq!['.'] + ms@[i].0@
                }),
            JsonValue::Array(xs) => flat_entries(xs@[i], if prefix.len() == 0 {
                    decimal(i as nat)
                } else {
                    prefix + seq!['.'] + decimal(i as nat)
                }),
            _ => Seq::empty(),
        }).contains(e) implies #[trigger] flat_members(v, prefix, n).contains(e) by {
        if i == n - 1 {
            let q = choose|q: int| 0 <= q < here.len() && here[q] == e;
            assert((front + here)[front.len() + q] == e);
        } else {
            assert(front.contains(e));
            let q = choose|q: int| 0 <= q < front.len() && front[q] == e;
            assert((front + here)[q] == e);
        }
    }
}

/// Every leaf of a member of an object, or of an element of an array, is
/// a leaf of the whole under the member's dotted path: member `k` of the
/// value at `prefix` under `prefix.k`, element `i` under `prefix.i`.
pub proof fn law_flatten_members(v: JsonValue, prefix: Seq<char>, i: int, e: (Seq<char>, Seq<char>))
    requires
        0 <= i < member_count(v),
        v is Object || v is Array,
        (match v {
            JsonValue::Object(ms) => flat_entries(ms@[i].1, if prefix.len() == 0 {
                    ms@[i].0@
                } else {
                    prefix + seq!['.'] + ms@[i].0@
                }),
            JsonValue::Array(xs) => flat_entries(xs@[i], if prefix.len() == 0 {
                    decimal(i as nat)
                } else {
                    prefix + seq!['.'] + decimal(i as nat)
                }),
            _ => Seq::empty(),
        }).contains(e),
    ensures
        flat_entries(v, prefix).contains(e),
{
    lemma_flat_members_include(v, prefix, member_count(v), i);
    assert(flat_members(v, prefix, member_count(v)).contains(e));
}

/// Sensitivity marks that are a boolean mark every path alike: `true`
/// marks all of them, `false` none; marks that are null, a number or a
/// string mark nothing.
pub proof fn law_scalar_marks(path: Seq<char>, marks: JsonValue)
    requires
        !(marks is Object),
        !(marks is Array),
    ensures
        path_is_sensitive(path, marks) == (marks == JsonValue::Bool(true)),
{
    lemma_split_nonempty(path, '.');
}

/// Under marks that are an object, the path `k` (a name without dots) is
/// sensitive exactly when the object's member `k` is `true`, and the path
/// `k.rest` exactly when `rest` is sensitive under that member's marks; a
/// path whose first name the object lacks is not sensitive.
pub proof fn law_member_marks(
    ms: Vec<(String, JsonValue)>,
    k: Seq<char>,
    rest: Seq<char>,
)
    requires
        !k.contains('.'),
    ensures
        path_is_sensitive(k, JsonValue::Object(ms)) == (member_lookup(ms@, k) == Some(
            JsonValue::Bool(true),
        )),
        path_is_sensitive(k + seq!['.'] + rest, JsonValue::Object(ms)) == match member_lookup(
            ms@,
            k,
        ) {
            Some(v) => path_is_sensitive(rest, v),
            None => false,
        },
{
    lemma_split_without_sep(k, '.');
    lemma_split_join(k, rest, '.');
    lemma_split_nonempty(rest, '.');
    assert(seq![k].drop_first() =~= Seq::<Seq<char>>::empty());
    assert((seq![k] + split_on(rest, '.')).drop_first() =~= split_on(rest, '.'));
    assert((seq![k] + split_on(rest, '.'))[0] == k);
    assert(split_on(k, '.') == seq![k]);
    assert(seq![k][0] == k);
    match member_lookup(ms@, k) {
        Some(v) => {
            assert(sensitive_along(Seq::<Seq<char>>::empty(), v) == (v == JsonValue::Bool(true)));
            assert(sensitive_along(seq![k], JsonValue::Object(ms)) == sensitive_along(
                Seq::<Seq<char>>::empty(),
                v,
            ));
        },
        None => {},
    }
}

/// A resource that no rule hides stays in the report, pruned by the
/// `any`-mode rules, when it keeps an attribute change or is a deletion: a
/// deletion is reported even when the rules leave none of its changes.
pub proof fn law_unhidden_resources_kept(
    rs: Seq<DriftedResourceView>,
    rules: Seq<IgnoreRuleView>,
    i: int,
)
    requires
        0 <= i < rs.len(),
        forall|q: int| 0 <= q < rules.len() ==> !should_ignore(rs[i], #[trigger] rules[q]),
        prune_by_rules(rs[i], rules).attribute_changes.len() > 0 || rs[i].action
            == DriftAction::Delete,
    ensures
        ignore_rules_applied(rs, rules).contains(prune_by_rules(rs[i], rules)),
{
    broadcast use vstd::seq_lib::group_filter_ensures;

    let keep = |r: DriftedResourceView| !ignored_by_rules(r, rules);
    let a = rs.filter(keep);
    let f = |r: DriftedResourceView| prune_by_rules(r, rules);
    let b = a.map_values(f);
    let w = |r: DriftedResourceView| worth_reporting(r);
    assert(!ignored_by_rules(rs[i], rules));
    assert(keep(rs[i]));
    assert(a.contains(rs[i]));
    let m = choose|m: int| 0 <= m < a.len() && a[m] == rs[i];
    assert(b[m] == prune_by_rules(rs[i], rules));
    assert(w(b[m]));
    assert(b.filter(w).contains(b[m]));
    assert(ignore_rules_applied(rs, rules) == b.filter(w));
}

} // verus!
