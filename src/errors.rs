use vstd::prelude::*;

verus! {

/// The one way a query can fail: fewer points were supplied than it needs.
#[derive(Debug, Clone, Copy, PartialEq, Eq, Structural)]
pub enum EnclosingError {
    Insufficient { require: usize, points: usize },
}

} // verus!
