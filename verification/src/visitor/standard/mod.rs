//! The standard passes.
pub mod collector;
pub mod type_checker;
