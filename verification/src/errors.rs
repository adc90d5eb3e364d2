use vstd::prelude::*;

verus! {

/// Failures surfaced by session and navigation operations.
///
/// Unsatisfiability under a route is never an error: it shows up as an empty
/// consequence set, a zero count, or an early stop of the sieve.
#[derive(Debug, Clone, PartialEq, Eq)]
pub enum NavigatorError {
    /// A query was attempted while the engine handle was already checked out.
    /// Fatal for the session: the handle is an exclusive resource.
    NoControl,
    /// Malformed caller input, such as removing an argument that was never
    /// added. Surfaced explicitly rather than silently ignored.
    InvalidInput(String),
}

} // verus!
