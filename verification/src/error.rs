//! The failures that decoding can end in.

use vstd::prelude::*;

verus! {

/// Why a buffer was refused. Every failure ends the whole decode.
#[derive(Debug, Clone, Copy, PartialEq, Eq, Structural)]
pub enum ParseError {
    /// A read that starts at `offset` needs bytes beyond the end of the buffer.
    OutOfBounds { offset: usize },
    /// The number found at the head of the buffer, or the one found at its
    /// trailer, is not the magic number.
    InvalidMagic { header: usize, trailer: usize },
    /// The version number is not the one this decoder knows.
    InvalidVersion { found: usize },
    /// The text that starts at `offset` is not UTF-8.
    InvalidUtf8 { offset: usize },
    /// The list entry at `offset` is badly framed: its leading source byte
    /// is outside the allowed range.
    MalformedList { offset: usize },
    /// A collection declares `actual` entries where `expected` are required.
    CountMismatch { expected: usize, actual: usize },
    /// The format byte at `offset` is `tag`, which names no page format.
    UnknownFormatTag { offset: usize, tag: u8 },
}

} // verus!
