//! The type checker pass.
use vstd::prelude::*;

verus! {

/// The type checker; it checks nothing yet.
pub struct StdTypeChecker {}

impl StdTypeChecker {
    pub fn new() -> (c: Self) {
        StdTypeChecker {}
    }
}

} // verus!
