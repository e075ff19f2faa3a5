//! Structural errors reported while decoding a fatbinary container.

use vstd::prelude::*;

verus! {

/// Errors from decoding a fatbinary container. Structural errors carry both
/// the expected and the observed value.
#[derive(Debug, Clone, Copy, PartialEq, Eq, Structural)]
#[allow(inconsistent_fields)]
pub enum FatBinaryError {
    /// The container magic number differs from `0xBA55ED50`.
    InvalidMagic { expected: u32, got: u32 },
    /// The container version differs from `1`.
    InvalidVersion { expected: u16, got: u16 },
    /// The container header size differs from `16`.
    InvalidHeaderSize { expected: u16, got: u16 },
    /// An entry's `options_offset` is nonzero but not `0x40`.
    InvalidOffset { expected: u32, got: u32 },
    /// The input holds fewer bytes than a declared length requires.
    UnexpectedEndOfInput,
    /// Identifier or ptxas-option bytes are not valid UTF-8.
    InvalidUtf8,
}

} // verus!
