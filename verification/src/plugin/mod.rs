//! Passes run between parsing and code generation.
pub mod standard;
