//! The collector plugin.
use vstd::prelude::*;

verus! {

/// The collector plugin; it collects nothing yet.
pub struct StdCollector {}

impl StdCollector {
    pub fn new() -> (c: Self) {
        StdCollector {}
    }
}

} // verus!
