//! The decisions around running `terraform plan` and `terraform show`.

use vstd::prelude::*;

use crate::plan::schema::TerraformPlan;
use crate::text::{decimal, push_decimal, string_of, strings_view};

verus! {

/// The program that runs plans.
pub open spec fn binary_name(use_tofu: bool) -> Seq<char> {
    if use_tofu {
        "tofu"@
    } else {
        "terraform"@
    }
}

/// The program that runs plans: `tofu` or `terraform`.
pub fn plan_binary(use_tofu: bool) -> (r: String)
    ensures
        r@ == binary_name(use_tofu),
{
    if use_tofu {
        string_of("tofu")
    } else {
        string_of("terraform")
    }
}

/// The arguments of the plan command: write the plan to `plan_file`, exit
/// with a detailed code, then the extra arguments.
pub fn plan_args(plan_file: &str, extra_args: &[String]) -> (r: Vec<String>)
    ensures
        strings_view(r@) == seq!["plan"@, "-out"@, plan_file@, "-detailed-exitcode"@]
            + strings_view(extra_args@),
{
    let mut args: Vec<String> = Vec::new();
    args.push(string_of("plan"));
    args.push(string_of("-out"));
    args.push(string_of(plan_file));
    args.push(string_of("-detailed-exitcode"));
    let ghost head = seq!["plan"@, "-out"@, plan_file@, "-detailed-exitcode"@];
    assert(strings_view(args@) =~= head + strings_view(extra_args@).take(0));
    let n = extra_args.len();
    for i in 0..n
        invariant
            n == extra_args@.len(),
            strings_view(args@) == head + strings_view(extra_args@).take(i as int),
    {
        let ghost prev = strings_view(args@);
        args.push(extra_args[i].clone());
        assert(strings_view(args@) =~= prev.push(extra_args@[i as int]@));
        assert(strings_view(extra_args@).take(i + 1) =~= strings_view(extra_args@).take(
            i as int,
        ).push(extra_args@[i as int]@));
    }
    assert(strings_view(extra_args@).take(n as int) =~= strings_view(extra_args@));
    args
}

/// The arguments of the command that prints a planfile as JSON.
pub fn show_args(plan_file: &str) -> (r: Vec<String>)
    ensures
        strings_view(r@) == seq!["show"@, "-json"@, plan_file@],
{
    let mut args: Vec<String> = Vec::new();
    args.push(string_of("show"));
    args.push(string_of("-json"));
    args.push(string_of(plan_file));
    assert(strings_view(args@) =~= seq!["show"@, "-json"@, plan_file@]);
    args
}

/// What the exit code of `plan -detailed-exitcode` means.
#[derive(PartialEq, Eq, Structural, Clone, Copy, Debug)]
pub enum PlanExit {
    /// 0: no changes.
    NoChanges,
    /// 2: changes are present, to be read from the planfile.
    Changes,
    /// 1: the plan failed.
    Failed,
    /// Any other code.
    Unexpected,
}

/// Classifies the exit code of `plan -detailed-exitcode`.
pub fn classify_plan_exit(code: i32) -> (r: PlanExit)
    ensures
        code == 0 ==> r == PlanExit::NoChanges,
        code == 2 ==> r == PlanExit::Changes,
        code == 1 ==> r == PlanExit::Failed,
        code != 0 && code != 1 && code != 2 ==> r == PlanExit::Unexpected,
{
    match code {
        0 => PlanExit::NoChanges,
        2 => PlanExit::Changes,
        1 => PlanExit::Failed,
        _ => PlanExit::Unexpected,
    }
}

/// The plan of a run without changes: nothing in it.
pub fn empty_plan() -> (r: TerraformPlan)
    ensures
        r.format_version is None,
        r.terraform_version is None,
        r.resource_changes@.len() == 0,
        r.resource_drift@.len() == 0,
{
    TerraformPlan {
        format_version: None,
        terraform_version: None,
        resource_changes: Vec::new(),
        resource_drift: Vec::new(),
    }
}

/// The decimal text of a signed number.
pub open spec fn signed_decimal(n: int) -> Seq<char> {
    if n < 0 {
        "-"@ + decimal((-n) as nat)
    } else {
        decimal(n as nat)
    }
}

fn push_signed_decimal(out: &mut String, n: i32)
    ensures
        final(out)@ == old(out)@ + signed_decimal(n as int),
{
    if n < 0 {
        out.push_str("-");
        let m: i64 = -(n as i64);
        push_decimal(out, m as usize);
    } else {
        push_decimal(out, n as usize);
    }
}

/// The message when the plan command fails.
pub fn plan_failed_message(binary: &str, stderr: &str) -> (r: String)
    ensures
        r@ == binary@ + " plan failed:\n"@ + stderr@,
{
    let mut m = string_of(binary);
    m.push_str(" plan failed:\n");
    m.push_str(stderr);
    m
}

/// The message when the plan command exits with an unknown code.
pub fn plan_unexpected_message(binary: &str, code: i32, stderr: &str) -> (r: String)
    ensures
        r@ == binary@ + " plan exited with unexpected code "@ + signed_decimal(code as int)
            + ":\n"@ + stderr@,
{
    let mut m = string_of(binary);
    m.push_str(" plan exited with unexpected code ");
    push_signed_decimal(&mut m, code);
    m.push_str(":\n");
    m.push_str(stderr);
    m
}

/// The message when the show command fails after a plan.
pub fn show_failed_message(binary: &str, stderr: &str) -> (r: String)
    ensures
        r@ == binary@ + " show -json failed: "@ + stderr@,
{
    let mut m = string_of(binary);
    m.push_str(" show -json failed: ");
    m.push_str(stderr);
    m
}

/// The message when the show command fails on a given planfile.
pub fn show_file_failed_message(binary: &str, code: i32, stderr: &str) -> (r: String)
    ensures
        r@ == binary@ + " show -json failed (exit code "@ + signed_decimal(code as int) + "): "@
            + stderr@,
{
    let mut m = string_of(binary);
    m.push_str(" show -json failed (exit code ");
    push_signed_decimal(&mut m, code);
    m.push_str("): ");
    m.push_str(stderr);
    m
}

} // verus!
