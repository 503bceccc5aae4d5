//! The error an encode call can return.

use vstd::prelude::*;

verus! {

/// Why an encode attempt failed.
///
/// `IllegalCharacter`: the value holds a character that cannot be written at
/// its grammar position under the active dialect, and no transport-encoded
/// fallback is permitted there. The failure is permanent for that value; the
/// output stream is left exactly as it was before the attempt.
#[derive(Debug, Clone, Copy, PartialEq, Eq, Structural, Hash)]
pub enum EncodeError {
    IllegalCharacter,
}

} // verus!
