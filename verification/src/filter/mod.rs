//! Filters given on the command line.

pub mod engine;
