//! What is established about one installed game beyond what its launcher
//! said: whether its install argued anything at all.

use vstd::prelude::*;

verus! {

/// True only when an install was read and nothing in it argues it is a
/// game. `None` means it was never read, which is not an answer of
/// "nothing".
pub fn lacks_evidence(carries_evidence: Option<bool>) -> (b: bool)
    ensures
        b == (carries_evidence == Some(false)),
{
    match carries_evidence {
        Some(false) => true,
        _ => false,
    }
}

/// Why a launcher-listed game's directory could not be read, as far as a
/// scan cares: it is not there, or something else went wrong.
#[derive(Debug, Clone, Copy, PartialEq, Eq, Structural)]
pub enum ReadFailure {
    NotFound,
    Other,
}

/// Whether a failure to read a launcher-listed game's root makes the scan
/// incomplete. A directory that is not there does not: it may be a
/// download in progress.
pub fn is_incomplete_error(failure: ReadFailure) -> (b: bool)
    ensures
        b == !(failure is NotFound),
{
    match failure {
        ReadFailure::NotFound => false,
        ReadFailure::Other => true,
    }
}

} // verus!
