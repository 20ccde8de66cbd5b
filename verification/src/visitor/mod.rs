//! Passes over the statements of the files before code generation.
pub mod standard;
