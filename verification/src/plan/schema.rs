//! The parts of `terraform show -json` output that drift detection reads.

use vstd::prelude::*;

use crate::json::JsonValue;

verus! {

/// Root structure of `terraform show -json <planfile>` output.
#[derive(Debug)]
pub struct TerraformPlan {
    pub format_version: Option<String>,
    pub terraform_version: Option<String>,
    /// Resource changes planned by Terraform (includes config-driven + drift).
    pub resource_changes: Vec<ResourceChange>,
    /// Explicit drift detected before planning (Terraform 1.4+).
    /// Each entry has the same shape as resource_changes.
    pub resource_drift: Vec<ResourceChange>,
}

/// One resource of the plan and its change.
#[derive(Debug)]
pub struct ResourceChange {
    /// Full address, e.g. "module.vpc.aws_subnet.private[0]"
    pub address: String,
    /// Module address, e.g. "module.vpc"
    pub module_address: Option<String>,
    /// Resource type, e.g. "aws_instance"
    pub resource_type: String,
    /// Resource name, e.g. "web"
    pub name: String,
    /// Provider name, e.g. "registry.terraform.io/hashicorp/aws"
    pub provider_name: String,
    /// The change details
    pub change: Change,
}

/// The change of one resource.
#[derive(Debug)]
pub struct Change {
    /// Actions: ["no-op"], ["create"], ["update"], ["delete"], ["create", "delete"], etc.
    pub actions: Vec<String>,
    /// Resource state before the change (absent for create)
    pub before: Option<JsonValue>,
    /// Resource state after the change (absent for delete)
    pub after: Option<JsonValue>,
    /// Marks which fields in `before` are sensitive
    pub before_sensitive: JsonValue,
    /// Marks which fields in `after` are sensitive
    pub after_sensitive: JsonValue,
    /// Fields whose values are not yet known (computed after apply)
    pub after_unknown: JsonValue,
}

} // verus!
