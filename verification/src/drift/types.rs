//! The drift report and what it is made of.

use vstd::prelude::*;

use crate::text::string_of;

verus! {

/// What a drifted resource would need to be brought back in line.
#[derive(PartialEq, Eq, Structural, Clone, Copy, Debug)]
pub enum DriftAction {
    Update,
    Delete,
    Create,
    Replace,
}

/// The name of an action, as written in reports and in ignore rules.
pub open spec fn action_name(a: DriftAction) -> Seq<char> {
    match a {
        DriftAction::Update => "update"@,
        DriftAction::Delete => "delete"@,
        DriftAction::Create => "create"@,
        DriftAction::Replace => "replace"@,
    }
}

impl DriftAction {
    /// The name of the action: `update`, `delete`, `create` or `replace`.
    pub fn to_string(&self) -> (r: String)
        ensures
            r@ == action_name(*self),
    {
        match self {
            DriftAction::Update => string_of("update"),
            DriftAction::Delete => string_of("delete"),
            DriftAction::Create => string_of("create"),
            DriftAction::Replace => string_of("replace"),
        }
    }
}

/// Where a drifted resource was found in the plan.
#[derive(PartialEq, Eq, Structural, Clone, Copy, Debug)]
pub enum DriftSource {
    /// From the explicit `resource_drift` field (Terraform 1.4+)
    ResourceDriftKey,
    /// Inferred from `resource_changes` (older Terraform or fallback)
    InferredFromChanges,
}

/// The name of a source, as written in reports.
pub open spec fn source_name(s: DriftSource) -> Seq<char> {
    match s {
        DriftSource::ResourceDriftKey => "resource_drift"@,
        DriftSource::InferredFromChanges => "inferred"@,
    }
}

impl DriftSource {
    /// The name of the source: `resource_drift` or `inferred`.
    pub fn to_string(&self) -> (r: String)
        ensures
            r@ == source_name(*self),
    {
        match self {
            DriftSource::ResourceDriftKey => string_of("resource_drift"),
            DriftSource::InferredFromChanges => string_of("inferred"),
        }
    }
}

/// One changed attribute of a resource.
#[derive(Debug)]
pub struct AttributeChange {
    pub path: String,
    pub before: Option<String>,
    pub after: Option<String>,
    pub sensitive: bool,
}

/// The mathematical content of an [`AttributeChange`].
pub struct AttributeChangeView {
    pub path: Seq<char>,
    pub before: Option<Seq<char>>,
    pub after: Option<Seq<char>>,
    pub sensitive: bool,
}

impl View for AttributeChange {
    type V = AttributeChangeView;

    open spec fn view(&self) -> AttributeChangeView {
        AttributeChangeView {
            path: self.path@,
            before: self.before.deep_view(),
            after: self.after.deep_view(),
            sensitive: self.sensitive,
        }
    }
}

/// A copy of an optional string.
pub fn copy_opt_string(o: &Option<String>) -> (r: Option<String>)
    ensures
        r.deep_view() == o.deep_view(),
{
    match o {
        Some(s) => Some(s.clone()),
        None => None,
    }
}

impl Clone for AttributeChange {
    fn clone(&self) -> (r: Self)
        ensures
            r@ == self@,
    {
        AttributeChange {
            path: self.path.clone(),
            before: copy_opt_string(&self.before),
            after: copy_opt_string(&self.after),
            sensitive: self.sensitive,
        }
    }
}

/// The views of a sequence of attribute changes.
pub open spec fn changes_view(v: Seq<AttributeChange>) -> Seq<AttributeChangeView> {
    v.map_values(|a: AttributeChange| a@)
}

/// A copy of a vector of attribute changes.
pub fn copy_changes(v: &Vec<AttributeChange>) -> (r: Vec<AttributeChange>)
    ensures
        changes_view(r@) == changes_view(v@),
{
    let mut r: Vec<AttributeChange> = Vec::new();
    let n = v.len();
    for i in 0..n
        invariant
            n == v@.len(),
            changes_view(r@) == changes_view(v@).take(i as int),
    {
        let c = v[i].clone();
        let ghost prev = changes_view(r@);
        r.push(c);
        assert(changes_view(r@) =~= prev.push(v@[i as int]@));
        assert(prev.push(v@[i as int]@) =~= changes_view(v@).take(i + 1));
    }
    assert(changes_view(v@).take(n as int) =~= changes_view(v@));
    r
}

/// A resource that changed outside of Terraform.
#[derive(Debug)]
pub struct DriftedResource {
    pub address: String,
    pub resource_type: String,
    pub name: String,
    pub module_address: Option<String>,
    pub provider: String,
    pub action: DriftAction,
    pub attribute_changes: Vec<AttributeChange>,
    pub source: DriftSource,
}

/// The mathematical content of a [`DriftedResource`].
pub struct DriftedResourceView {
    pub address: Seq<char>,
    pub resource_type: Seq<char>,
    pub name: Seq<char>,
    pub module_address: Option<Seq<char>>,
    pub provider: Seq<char>,
    pub action: DriftAction,
    pub attribute_changes: Seq<AttributeChangeView>,
    pub source: DriftSource,
}

impl View for DriftedResource {
    type V = DriftedResourceView;

    open spec fn view(&self) -> DriftedResourceView {
        DriftedResourceView {
            address: self.address@,
            resource_type: self.resource_type@,
            name: self.name@,
            module_address: self.module_address.deep_view(),
            provider: self.provider@,
            action: self.action,
            attribute_changes: changes_view(self.attribute_changes@),
            source: self.source,
        }
    }
}

impl DriftedResource {
    /// The same resource with other attribute changes.
    pub fn with_changes(&self, changes: Vec<AttributeChange>) -> (r: DriftedResource)
        ensures
            r@ == (DriftedResourceView {
                attribute_changes: changes_view(changes@),
                ..self@
            }),
    {
        DriftedResource {
            address: self.address.clone(),
            resource_type: self.resource_type.clone(),
            name: self.name.clone(),
            module_address: copy_opt_string(&self.module_address),
            provider: self.provider.clone(),
            action: self.action,
            attribute_changes: changes,
            source: self.source,
        }
    }
}

impl Clone for DriftedResource {
    fn clone(&self) -> (r: Self)
        ensures
            r@ == self@,
    {
        self.with_changes(copy_changes(&self.attribute_changes))
    }
}

/// The views of a sequence of resources.
pub open spec fn resources_view(v: Seq<DriftedResource>) -> Seq<DriftedResourceView> {
    v.map_values(|r: DriftedResource| r@)
}

/// Counts of drifted resources, by action.
#[derive(PartialEq, Eq, Structural, Clone, Copy, Debug)]
pub struct DriftSummary {
    pub total_drifted: usize,
    pub updates: usize,
    pub deletes: usize,
    pub creates: usize,
    pub replaces: usize,
}

/// The number of resources whose action is `a`.
pub open spec fn count_action(rs: Seq<DriftedResourceView>, a: DriftAction) -> nat
    decreases rs.len(),
{
    if rs.len() == 0 {
        0
    } else {
        count_action(rs.drop_last(), a) + if rs.last().action == a {
            1nat
        } else {
            0nat
        }
    }
}

/// `s` counts the resources of `rs`, in all and by action.
pub open spec fn summary_counts(s: DriftSummary, rs: Seq<DriftedResourceView>) -> bool {
    &&& s.total_drifted == rs.len()
    &&& s.updates == count_action(rs, DriftAction::Update)
    &&& s.deletes == count_action(rs, DriftAction::Delete)
    &&& s.creates == count_action(rs, DriftAction::Create)
    &&& s.replaces == count_action(rs, DriftAction::Replace)
}

/// Every resource is counted under exactly one action.
pub proof fn lemma_counts_sum(rs: Seq<DriftedResourceView>)
    ensures
        count_action(rs, DriftAction::Update) + count_action(rs, DriftAction::Delete)
            + count_action(rs, DriftAction::Create) + count_action(rs, DriftAction::Replace)
            == rs.len(),
    decreases rs.len(),
{
    if rs.len() > 0 {
        lemma_counts_sum(rs.drop_last());
    }
}

/// The result of drift detection.
#[derive(Debug)]
pub struct DriftReport {
    pub terraform_version: Option<String>,
    pub drifted_resources: Vec<DriftedResource>,
    pub summary: DriftSummary,
}

/// The mathematical content of a [`DriftReport`].
pub struct DriftReportView {
    pub terraform_version: Option<Seq<char>>,
    pub drifted_resources: Seq<DriftedResourceView>,
    pub summary: DriftSummary,
}

impl View for DriftReport {
    type V = DriftReportView;

    open spec fn view(&self) -> DriftReportView {
        DriftReportView {
            terraform_version: self.terraform_version.deep_view(),
            drifted_resources: resources_view(self.drifted_resources@),
            summary: self.summary,
        }
    }
}

/// The summary of a report agrees with its resources.
pub open spec fn summary_consistent(r: DriftReportView) -> bool {
    summary_counts(r.summary, r.drifted_resources)
}

/// A report's summary totals are the sum of its per-action counts.
pub proof fn law_summary_adds_up(r: DriftReportView)
    requires
        summary_consistent(r),
    ensures
        r.summary.total_drifted == r.summary.updates + r.summary.deletes + r.summary.creates
            + r.summary.replaces,
{
    lemma_counts_sum(r.drifted_resources);
}

/// Counting an action counts the resources that have it.
proof fn lemma_count_is_filter(rs: Seq<DriftedResourceView>, a: DriftAction)
    ensures
        count_action(rs, a) == rs.filter(|r: DriftedResourceView| r.action == a).len(),
    decreases rs.len(),
{
    reveal(Seq::filter);
    if rs.len() > 0 {
        lemma_count_is_filter(rs.drop_last(), a);
    }
}

/// A report's summary counts, for each action, exactly the reported
/// resources with that action, and in all every reported resource.
pub proof fn law_summary_counts_each_action(r: DriftReportView)
    requires
        summary_consistent(r),
    ensures
        r.summary.total_drifted == r.drifted_resources.len(),
        r.summary.updates == r.drifted_resources.filter(
            |x: DriftedResourceView| x.action == DriftAction::Update,
        ).len(),
        r.summary.deletes == r.drifted_resources.filter(
            |x: DriftedResourceView| x.action == DriftAction::Delete,
        ).len(),
        r.summary.creates == r.drifted_resources.filter(
            |x: DriftedResourceView| x.action == DriftAction::Create,
        ).len(),
        r.summary.replaces == r.drifted_resources.filter(
            |x: DriftedResourceView| x.action == DriftAction::Replace,
        ).len(),
{
    lemma_count_is_filter(r.drifted_resources, DriftAction::Update);
    lemma_count_is_filter(r.drifted_resources, DriftAction::Delete);
    lemma_count_is_filter(r.drifted_resources, DriftAction::Create);
    lemma_count_is_filter(r.drifted_resources, DriftAction::Replace);
}

impl DriftReport {
    /// Recomputes the summary from the drifted resources.
    pub fn recalculate_summary(&mut self)
        ensures
            final(self)@.terraform_version == old(self)@.terraform_version,
            final(self)@.drifted_resources == old(self)@.drifted_resources,
            summary_consistent(final(self)@),
    {
        let n = self.drifted_resources.len();
        let mut summary = DriftSummary {
            total_drifted: n,
            updates: 0,
            deletes: 0,
            creates: 0,
            replaces: 0,
        };
        let ghost rs = resources_view(self.drifted_resources@);
        assert(rs.take(0) =~= Seq::<DriftedResourceView>::empty());
        for i in 0..n
            invariant
                n == self.drifted_resources@.len(),
                rs == resources_view(self.drifted_resources@),
                summary.total_drifted == n,
                summary.updates == count_action(rs.take(i as int), DriftAction::Update),
                summary.deletes == count_action(rs.take(i as int), DriftAction::Delete),
                summary.creates == count_action(rs.take(i as int), DriftAction::Create),
                summary.replaces == count_action(rs.take(i as int), DriftAction::Replace),
        {
            assert(rs.take(i + 1).drop_last() =~= rs.take(i as int));
            assert(rs.take(i + 1).last() == self.drifted_resources@[i as int]@);
            proof {
                lemma_counts_sum(rs.take(i as int));
            }
            match self.drifted_resources[i].action {
                DriftAction::Update => summary.updates += 1,
                DriftAction::Delete => summary.deletes += 1,
                DriftAction::Create => summary.creates += 1,
                DriftAction::Replace => summary.replaces += 1,
            }
        }
        assert(rs.take(n as int) =~= rs);
        self.summary = summary;
    }
}

} // verus!
