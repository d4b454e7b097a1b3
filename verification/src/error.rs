//! The error taxonomy: everything that parsing, validation or application can
//! report.  Every failure is returned to the caller; nothing panics.

use vstd::prelude::*;

verus! {

/// An error produced by this crate.
///
/// Offsets and counts are measured in characters of the template text.
#[derive(Debug, Clone, Copy, PartialEq, Eq, Structural)]
pub enum Error {
    /// The total `${` count and the total `}` count disagree after a scan.
    MismatchedBraces { open: usize, close: usize },
    /// An open marker has no matching closing brace.
    ExpectedClosing { head: usize },
    /// A closing brace has no matching open marker.
    ExpectedOpening { tail: usize },
    /// A marker opened while another marker was still open.
    NestedTemplate { pos: usize },
    /// A key name occurs more than once and the policy forbids duplicates.
    DuplicateKeys,
    /// The template holds no markers and the policy forbids empty templates.
    EmptyTemplate,
    /// An argument matches no template key and the policy forbids extras.
    OptionalKeys,
}

} // verus!
