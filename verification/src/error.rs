//! The ways in which reading or writing a message fails.

use vstd::prelude::*;

verus! {

/// Why a codec operation gave up.
#[derive(Debug, Clone, Copy, PartialEq, Eq, Structural)]
pub enum DnsError {
    /// A read, write or peek reached past the end of the packet buffer.
    EndOfBuffer,
    /// A name needed more pointer jumps than the decoder follows.
    JumpLimitExceeded,
    /// A label of a name is longer than the length octet can express.
    LabelTooLong,
}

impl DnsError {
    /// The error in words.
    pub fn message(&self) -> (text: &'static str)
        ensures
            text@ == match *self {
                DnsError::EndOfBuffer => "End of buffer"@,
                DnsError::JumpLimitExceeded => "Limit of 5 jumps exceeded"@,
                DnsError::LabelTooLong => "Single label exceeds 63 characters of length"@,
            },
    {
        match *self {
            DnsError::EndOfBuffer => "End of buffer",
            DnsError::JumpLimitExceeded => "Limit of 5 jumps exceeded",
            DnsError::LabelTooLong => "Single label exceeds 63 characters of length",
        }
    }
}

} // verus!
