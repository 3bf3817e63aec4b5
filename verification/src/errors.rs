//! The error kinds of the extraction engine: flat, non-retryable, terminal
//! for the enclosing invocation.

use vstd::prelude::*;

verus! {

/// Why an extraction failed. Every failure is terminal: there is no partial
/// or degraded output.
#[derive(Debug, Clone, PartialEq)]
pub enum Error {
    /// Reserved for scheme shapes intentionally unsupported; no shape
    /// currently triggers it.
    NotImplemented { feature: String },
    /// A selector path failed to compile into a matcher.
    InvalidPath { path: String },
    /// A mandatory single-match path matched zero nodes.
    NoElementFound { path: String },
    /// Within multi-extraction of an object, a field produced a different
    /// number of values than the field before it.
    MismatchedFieldCount { field: String, expected: usize, found: usize },
}

} // verus!
