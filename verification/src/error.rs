//! Errors raised while parsing or rebuilding a container. Every operation
//! either runs to completion or stops at the first failure; nothing is
//! retried, since the input is a fixed in-memory buffer.

use vstd::prelude::*;

verus! {

/// Why a parse or a rewrite of a container failed.
#[derive(Clone, Copy, Debug, PartialEq, Eq, Structural)]
pub enum AviError {
    /// A 4-byte tag at `offset` did not match the `expected` four-character
    /// code (stored as its big-endian integer value).
    Validation { offset: usize, expected: u32 },
    /// Fewer bytes remained than a fixed-size read or a header patch requires.
    Truncation,
    /// The frame record at index `frame` points past the end of the stream.
    OutOfBounds { frame: usize },
    /// A rebuilt offset or size does not fit the format's 4-byte fields.
    TooLarge,
}

impl AviError {
    /// A short description, since the type carries no `Display` impl.
    pub fn describe(&self) -> (r: &'static str)
        ensures
            r@.len() > 0,
    {
        let r = match self {
            AviError::Validation { .. } => "expected tag missing",
            AviError::Truncation => "buffer too short for a fixed-size field",
            AviError::OutOfBounds { .. } => "frame record points past the end of the stream",
            AviError::TooLarge => "rebuilt field does not fit in four bytes",
        };
        proof {
            reveal_strlit("expected tag missing");
            reveal_strlit("buffer too short for a fixed-size field");
            reveal_strlit("frame record points past the end of the stream");
            reveal_strlit("rebuilt field does not fit in four bytes");
        }
        r
    }
}

} // verus!
