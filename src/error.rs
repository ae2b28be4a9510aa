use vstd::prelude::*;

verus! {

/// Why a report could not be judged.
#[derive(Debug, Clone, Copy, PartialEq, Eq, Structural)]
pub enum JudgeError {
    /// The body-start marker `\sectd` does not occur in the document.
    MarkerNotFound,
    /// The bytes of a cell are not valid UTF-8.
    DecodeError,
    /// A cell that the report layout calls for is missing.
    MalformedReport,
}

} // verus!
