//! The errors a layout call can surface.

use vstd::prelude::*;

verus! {

/// What a layout call reports instead of aborting: a graph text the
/// codec cannot read, or a parameter outside the accepted range.
#[derive(Clone, Copy, PartialEq, Eq, Structural, Debug)]
pub enum LayoutError {
    /// The wire text is not a comma-separated list of `digits-digits`
    /// edge tokens (or an endpoint does not fit the machine).
    MalformedGraphDescription,
    /// An algorithm parameter lies outside the range the engine
    /// accepts.
    InvalidParameter,
    /// The graph demands a distance matrix larger than the machine
    /// can address.
    GraphTooLarge,
}

impl LayoutError {
    /// A short description, for callers that print the error.
    pub fn message(&self) -> (r: &'static str)
        ensures
            self is MalformedGraphDescription ==> r@ == "malformed graph description"@,
            self is InvalidParameter ==> r@ == "invalid parameter"@,
            self is GraphTooLarge ==> r@ == "graph too large"@,
    {
        match self {
            LayoutError::MalformedGraphDescription => "malformed graph description",
            LayoutError::InvalidParameter => "invalid parameter",
            LayoutError::GraphTooLarge => "graph too large",
        }
    }
}

} // verus!
