//! Errors raised by the map's operations.

use vstd::prelude::*;

verus! {

/// The kind of failure that a map operation ran into.
#[derive(Clone, Copy, Debug, PartialEq, Eq, Structural)]
pub enum MapErrorKind {
    /// Growing the backing buffers failed; the map keeps its prior state.
    AllocationError,
    /// A mutating operation was given a position beyond the valid range.
    AccessError,
}

/// An error reported by `CIndexMap`.
///
/// The error carries the kind of failure the map encountered and a static
/// message suitable for display to a user.
#[derive(Debug)]
pub struct CIndexMapError {
    /// A static string containing the message associated with the error.
    message: &'static str,

    /// A `MapErrorKind`, containing the type of error that the map encountered.
    kind: MapErrorKind,
}

impl CIndexMapError {
    /// The kind of failure this error reports.
    pub closed spec fn spec_kind(&self) -> MapErrorKind {
        self.kind
    }

    /// The characters of the message carried by this error.
    pub closed spec fn spec_message(&self) -> Seq<char> {
        self.message@
    }

    /// Constructs a new `CIndexMapError` with the given kind and message.
    pub fn new(kind: MapErrorKind, message: &'static str) -> (e: CIndexMapError)
        ensures
            e.spec_kind() == kind,
            e.spec_message() == message@,
    {
        CIndexMapError { kind, message }
    }

    /// Returns the kind of failure this error reports.
    #[verifier::when_used_as_spec(spec_kind)]
    pub fn kind(&self) -> (k: MapErrorKind)
        ensures
            k == self.spec_kind(),
    {
        self.kind
    }

    /// Returns the message associated with the error.
    pub fn message(&self) -> (m: &'static str)
        ensures
            m@ == self.spec_message(),
    {
        self.message
    }
}

} // verus!
