use vstd::prelude::*;

verus! {

/// Every failure the aligner can surface.  None of these are recovered
/// locally: an error aborts the in-flight call and propagates to the caller.
#[derive(Clone, Copy, Debug, PartialEq, Eq, Structural)]
pub enum WarpError {
    /// No compute-capable device could be acquired.
    DeviceUnavailable,
    /// A readback buffer could not be mapped.
    BufferMapFailed,
    /// A character outside the four-symbol alphabet was parsed.
    InvalidNucleotide,
    /// A size or alignment argument violates a construction precondition.
    ParameterOutOfRange,
}

impl WarpError {
    /// A short human-readable description of the error.
    pub fn describe(&self) -> (s: &'static str)
        ensures
            (match self {
                WarpError::DeviceUnavailable => s@ == "no compute-capable device is available"@,
                WarpError::BufferMapFailed => s@ == "failed to map a device buffer"@,
                WarpError::InvalidNucleotide => s@ == "invalid nucleotide"@,
                WarpError::ParameterOutOfRange => s@ == "parameter out of range"@,
            }),
    {
        match self {
            WarpError::DeviceUnavailable => "no compute-capable device is available",
            WarpError::BufferMapFailed => "failed to map a device buffer",
            WarpError::InvalidNucleotide => "invalid nucleotide",
            WarpError::ParameterOutOfRange => "parameter out of range",
        }
    }
}

} // verus!
