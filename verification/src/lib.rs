//! Drift detection for Terraform/OpenTofu plans.

pub mod json;
pub mod keymap;
pub mod seq_util;
pub mod text;
pub mod cli;
pub mod config;
pub mod drift;
pub mod filter;
pub mod plan;
pub mod output;
pub mod pipeline;
