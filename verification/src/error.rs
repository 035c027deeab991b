//! The failures that the library reports.

use vstd::prelude::*;

verus! {

/// Why an invocation cannot produce its output line.
#[derive(Debug, Clone, Copy, PartialEq, Eq, Structural)]
pub enum WcError {
    /// The arguments do not name what to count: there are more than two
    /// of them, or of two arguments not exactly one is a flag.
    Usage,
    /// Characters were asked for and the content is not valid UTF-8.
    Encoding,
}

} // verus!
