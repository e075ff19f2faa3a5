//! The fixed 64-byte entry header and the flag classifiers.

use vstd::prelude::*;

verus! {

/// Flag bit: the entry was compiled for a 64-bit host.
pub const FATBINARY_FLAG_COMPILE_SIZE_64BIT: u64 = 0x00000001;
/// Flag bit: the entry contains debug info.
pub const FATBINARY_FLAG_DEBUG: u64 = 0x00000002;
/// Flag bit: the entry was produced by CUDA.
pub const FATBINARY_FLAG_PRODUCER_CUDA: u64 = 0x00000004;
/// Flag bit: the entry was produced by OpenCL.
pub const FATBINARY_FLAG_PRODUCER_OPENCL: u64 = 0x00000008;
/// Flag bit: the host is Linux.
pub const FATBINARY_FLAG_HOST_LINUX: u64 = 0x00000010;
/// Flag bit: the host is macOS.
pub const FATBINARY_FLAG_HOST_MAC: u64 = 0x00000020;
/// Flag bit: the host is Windows.
pub const FATBINARY_FLAG_HOST_WINDOWS: u64 = 0x00000040;
/// Flag bit: the payload is compressed.
pub const FATBINARY_FLAG_COMPRESSED: u64 = 0x00002000;

/// Host platform of a [`crate::FatBinaryEntry`].
#[derive(Debug, Clone, Copy, PartialEq, Eq, Structural)]
pub enum Host {
    Linux,
    Mac,
    Windows,
    Unknown,
}

/// Producer of a [`crate::FatBinaryEntry`].
#[derive(Debug, Clone, Copy, PartialEq, Eq, Structural)]
pub enum Producer {
    CUDA,
    OpenCL,
    Unknown,
}

/// The fixed leading 64 bytes of an entry header, stored little-endian on
/// disk. `header_size` counts these 64 bytes plus the trailing region that
/// holds the ptxas-options descriptor, the ptxas-option string and the
/// identifier string; the payload follows the header region.
#[derive(Debug, Clone, Copy, PartialEq, Eq, Structural)]
pub struct FatBinaryEntryHeader {
    /// `2` for an ELF cubin, `1` for PTX.
    pub kind: u16,
    /// Observed as `0x0000` or `0x0101`; preserved on read, `0x0101` when
    /// synthesized.
    pub reserved1: u16,
    /// Total size of this entry's header region: 64 plus trailing bytes.
    pub header_size: u32,
    /// Payload length in bytes (the compressed length when compressed).
    pub size: u64,
    /// Length of the compressed byte run inside the payload; 0 if plain.
    pub compressed_size: u32,
    /// Offset from the entry start to the 8-byte ptxas-options descriptor;
    /// 0 when absent, conventionally `0x40` otherwise.
    pub options_offset: u32,
    /// Code version minor.
    pub minor: u16,
    /// Code version major.
    pub major: u16,
    /// SM architecture number, e.g. `70` or `80`.
    pub arch: u32,
    /// Offset from the entry start to the identifier bytes; 0 when absent.
    pub identifier_offset: u32,
    /// Length of the identifier in bytes.
    pub identifier_len: u32,
    /// Bit flags; see the `FATBINARY_FLAG_` constants.
    pub flags: u64,
    /// Observed zero; preserved.
    pub zero: u64,
    /// Decompressed payload length; 0 when not compressed.
    pub decompressed_size: u64,
}

/// Whether the compressed-payload bit is lit in `flags`.
pub open spec fn flag_compressed(flags: u64) -> bool {
    flags & FATBINARY_FLAG_COMPRESSED != 0
}

/// Whether the 64-bit-host bit is lit in `flags`.
pub open spec fn flag_64bit(flags: u64) -> bool {
    flags & FATBINARY_FLAG_COMPILE_SIZE_64BIT != 0
}

/// Whether the debug-info bit is lit in `flags`.
pub open spec fn flag_debug(flags: u64) -> bool {
    flags & FATBINARY_FLAG_DEBUG != 0
}

/// The host classifier: the first lit bit among Linux, macOS, Windows wins;
/// `Unknown` when none is lit.
pub open spec fn host_of(flags: u64) -> Host {
    if flags & FATBINARY_FLAG_HOST_LINUX != 0 {
        Host::Linux
    } else if flags & FATBINARY_FLAG_HOST_MAC != 0 {
        Host::Mac
    } else if flags & FATBINARY_FLAG_HOST_WINDOWS != 0 {
        Host::Windows
    } else {
        Host::Unknown
    }
}

/// The producer classifier: CUDA wins over OpenCL; `Unknown` when neither
/// bit is lit.
pub open spec fn producer_of(flags: u64) -> Producer {
    if flags & FATBINARY_FLAG_PRODUCER_CUDA != 0 {
        Producer::CUDA
    } else if flags & FATBINARY_FLAG_PRODUCER_OPENCL != 0 {
        Producer::OpenCL
    } else {
        Producer::Unknown
    }
}

/// The host classifier is a function of the host bits alone: flag words that
/// agree on the mask `0x70` classify alike, a word with no host bit lit
/// classifies as `Unknown`, and a single lit bit picks its host.
pub proof fn lemma_host_classifier(f1: u64, f2: u64)
    ensures
        f1 & 0x70 == f2 & 0x70 ==> host_of(f1) == host_of(f2),
        f1 & 0x70 == 0 ==> host_of(f1) == Host::Unknown,
        f1 & 0x70 == FATBINARY_FLAG_HOST_LINUX ==> host_of(f1) == Host::Linux,
        f1 & 0x70 == FATBINARY_FLAG_HOST_MAC ==> host_of(f1) == Host::Mac,
        f1 & 0x70 == FATBINARY_FLAG_HOST_WINDOWS ==> host_of(f1) == Host::Windows,
{
    assert(f1 & 0x70 == f2 & 0x70 ==> ((f1 & 0x10 == 0) == (f2 & 0x10 == 0) && (f1 & 0x20 == 0)
        == (f2 & 0x20 == 0) && (f1 & 0x40 == 0) == (f2 & 0x40 == 0))) by (bit_vector);
    assert(f1 & 0x70 == 0 ==> (f1 & 0x10 == 0 && f1 & 0x20 == 0 && f1 & 0x40 == 0))
        by (bit_vector);
    assert(f1 & 0x70 == 0x10 ==> f1 & 0x10 != 0) by (bit_vector);
    assert(f1 & 0x70 == 0x20 ==> (f1 & 0x10 == 0 && f1 & 0x20 != 0)) by (bit_vector);
    assert(f1 & 0x70 == 0x40 ==> (f1 & 0x10 == 0 && f1 & 0x20 == 0 && f1 & 0x40 != 0))
        by (bit_vector);
}

/// The producer classifier is a function of the producer bits alone: flag
/// words that agree on the mask `0xC` classify alike, a word with no
/// producer bit lit classifies as `Unknown`, and a single lit bit picks its
/// producer.
pub proof fn lemma_producer_classifier(f1: u64, f2: u64)
    ensures
        f1 & 0xC == f2 & 0xC ==> producer_of(f1) == producer_of(f2),
        f1 & 0xC == 0 ==> producer_of(f1) == Producer::Unknown,
        f1 & 0xC == FATBINARY_FLAG_PRODUCER_CUDA ==> producer_of(f1) == Producer::CUDA,
        f1 & 0xC == FATBINARY_FLAG_PRODUCER_OPENCL ==> producer_of(f1) == Producer::OpenCL,
{
    assert(f1 & 0xC == f2 & 0xC ==> ((f1 & 0x4 == 0) == (f2 & 0x4 == 0) && (f1 & 0x8 == 0) == (
    f2 & 0x8 == 0))) by (bit_vector);
    assert(f1 & 0xC == 0 ==> (f1 & 0x4 == 0 && f1 & 0x8 == 0)) by (bit_vector);
    assert(f1 & 0xC == 0x4 ==> f1 & 0x4 != 0) by (bit_vector);
    assert(f1 & 0xC == 0x8 ==> (f1 & 0x4 == 0 && f1 & 0x8 != 0)) by (bit_vector);
}

} // verus!
