//! Error model shared by every store in the crate.
//!
//! Each error carries a kind, which contracts speak about, and a free-form
//! message for display.

use vstd::prelude::*;

verus! {

/// The kinds of failure the stores distinguish.
#[derive(Debug, Clone, Copy, PartialEq, Eq, Structural)]
pub enum ErrorKind {
    /// A profile, skill, or target path was absent when required.
    NotFound,
    /// A skill id already has a folder on create.
    AlreadyExists,
    /// An attempt to delete a built-in (non-custom) skill.
    PermissionDenied,
    /// Front matter missing or invalid in a skill document.
    MalformedDocument,
    /// An underlying filesystem failure, wrapped with context.
    IOFailure,
    /// Catch-all for invariant violations in configuration state.
    Configuration,
}

/// An error raised by the stores: a kind plus a human-readable message.
#[derive(Debug, Clone)]
pub struct RhinolabsError {
    pub kind: ErrorKind,
    pub message: String,
}

impl RhinolabsError {
    /// Build an error of the given kind.
    pub fn new(kind: ErrorKind, message: String) -> (r: RhinolabsError)
        ensures
            r.kind == kind,
            r.message == message,
    {
        RhinolabsError { kind, message }
    }

    /// The kind of this error.
    pub fn kind(&self) -> (k: ErrorKind)
        ensures
            k == self.kind,
    {
        self.kind
    }

    /// The display text of this error.
    pub fn message(&self) -> (m: &String)
        ensures
            m@ == self.message@,
    {
        &self.message
    }
}

} // verus!
