//! Terraform plans: their shape, and the decisions around reading them.

pub mod schema;
pub mod executor;
pub mod parser;
