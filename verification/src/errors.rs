//! Failure taxonomy of the installer.
//!
//! Every fallible step reports a typed failure carrying the path or cause
//! involved; failures propagate to the immediate caller without local
//! recovery.

use vstd::prelude::*;

verus! {

/// A failure of the resource installer.
pub enum InstallError {
    /// The runtime base-directory lookup failed; `cause` is the
    /// collaborator's own error text.
    PathLookup { cause: String },
    /// A resource could not be written to its destination; `path` is the
    /// destination that failed.
    BinaryWrite { path: String },
    /// The privileged switch-user binary could not be written; `path` is
    /// its destination.
    SuExtract { path: String },
    /// The security label could not be applied; `path` is the destination
    /// that was left unlabeled.
    SetContext { path: String },
}

impl InstallError {
    /// The fixed human-readable context phrase of this failure.
    pub open spec fn spec_context(self) -> Seq<char> {
        match self {
            InstallError::PathLookup { .. } => "failed to get path"@,
            InstallError::BinaryWrite { .. } => "failed to write binary"@,
            InstallError::SuExtract { .. } => "failed to extract su binary"@,
            InstallError::SetContext { .. } => "failed to set system context"@,
        }
    }

    /// Short context phrase describing which step failed.
    pub fn context(&self) -> (r: &'static str)
        ensures
            r@ == self.spec_context(),
    {
        match self {
            InstallError::PathLookup { .. } => "failed to get path",
            InstallError::BinaryWrite { .. } => "failed to write binary",
            InstallError::SuExtract { .. } => "failed to extract su binary",
            InstallError::SetContext { .. } => "failed to set system context",
        }
    }
}

/// A failure of the idempotent write primitive: the destination was not
/// already correct and writing to it is denied.
pub enum WriteError {
    Denied,
}

/// A failure of the labeling primitive.
pub enum LabelError {
    /// No file exists at the path to be labeled.
    Missing,
    /// The labeling facility refuses the path.
    Denied,
}

} // verus!
