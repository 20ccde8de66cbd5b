//! The standard plugins.
pub mod collector;
