//! The options shared by the `scan` and `parse` commands.

use vstd::prelude::*;

use crate::config::copy_strings;
use crate::text::strings_view;

verus! {

/// Output format
#[derive(PartialEq, Eq, Structural, Clone, Copy, Debug)]
pub enum OutputFormat {
    Human,
    Json,
    Csv,
    Table,
    Hcl,
}

/// Options shared by the commands that detect drift.
#[derive(Debug)]
pub struct CommonArgs {
    /// Output format
    pub format: OutputFormat,
    /// Filter by resource type (e.g., aws_instance). Repeatable.
    pub resource_types: Vec<String>,
    /// Filter by resource address (supports glob patterns, e.g., "module.vpc.*"). Repeatable.
    pub resource_names: Vec<String>,
    /// Filter by changed attribute name (e.g., "tags"). Repeatable.
    pub attributes: Vec<String>,
    /// Suppress colored output
    pub no_color: bool,
    /// Path to config file with ignore rules
    pub config: String,
}

/// The mathematical content of [`CommonArgs`].
pub struct CommonArgsView {
    pub format: OutputFormat,
    pub resource_types: Seq<Seq<char>>,
    pub resource_names: Seq<Seq<char>>,
    pub attributes: Seq<Seq<char>>,
    pub no_color: bool,
    pub config: Seq<char>,
}

impl View for CommonArgs {
    type V = CommonArgsView;

    open spec fn view(&self) -> CommonArgsView {
        CommonArgsView {
            format: self.format,
            resource_types: strings_view(self.resource_types@),
            resource_names: strings_view(self.resource_names@),
            attributes: strings_view(self.attributes@),
            no_color: self.no_color,
            config: self.config@,
        }
    }
}

impl Clone for CommonArgs {
    fn clone(&self) -> (r: Self)
        ensures
            r@ == self@,
    {
        CommonArgs {
            format: self.format,
            resource_types: copy_strings(&self.resource_types),
            resource_names: copy_strings(&self.resource_names),
            attributes: copy_strings(&self.attributes),
            no_color: self.no_color,
            config: self.config.clone(),
        }
    }
}

} // verus!
