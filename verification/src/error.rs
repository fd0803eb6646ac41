use vstd::prelude::*;

verus! {

/// Outcome of a failed size probe over an untrusted buffer.
#[derive(Clone, Copy, Debug, PartialEq, Eq, Structural)]
pub enum TamponError {
    /// The buffer is shorter than the declared items require.
    DeserializeSizeBufferIncomplete,
    /// The probed length exceeds the caller-supplied ceiling.
    DeserializeSizeGreaterThanMax,
}

} // verus!
