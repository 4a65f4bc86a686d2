//! Error kinds of the editing core.

use vstd::prelude::*;

verus! {

/// What a buffer operation can fail with.
#[derive(Clone, Copy, Debug, PartialEq, Eq, Structural)]
pub enum BufferError {
    /// The position lies outside the current document bounds.
    InvalidPosition { line: usize, column: usize },
    /// Either endpoint of a range is invalid.
    InvalidRange,
    /// A filesystem failure while saving.
    IoError,
    /// A save was attempted on a buffer with no backing path.
    FileNotSet,
}

/// What an editor-level operation can fail with.
#[derive(Clone, Copy, Debug, PartialEq, Eq, Structural)]
pub enum EditorError {
    /// A save failed, for any reason.
    SaveError,
}

} // verus!
