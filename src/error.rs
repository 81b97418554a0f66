//! Errors of the cleaning engine.

use vstd::prelude::*;

verus! {

/// Why a profile, a GC root or a whole clean cannot go on.
#[derive(Debug)]
pub enum CleanError {
    /// A path whose modification time could not be read.
    MissingMetadata { path: String },
    /// The profile link, pointing at `target`, is not at the newest generation.
    InconsistentProfile { target: String },
    /// A GC-root pattern that does not compile.
    InvalidPattern { pattern: String },
    /// Checking access to a GC root's target failed for another reason than
    /// a missing file or a denied permission.
    AccessCheck { path: String },
    /// A directory or link that could not be read.
    Unreadable { path: String },
    /// Cleaning only the current user's profiles was asked for as root.
    UserModeAsRoot,
}

} // verus!
