//! The in-memory model: a fatbinary entry with its header, optional
//! identifier and ptxas-option strings, and payload; and the container that
//! owns an ordered sequence of entries.

use vstd::prelude::*;
use vstd::utf8::decode_utf8;
use vstd::utf8::encode_utf8;
use vstd::utf8::encode_utf8_valid_utf8;

use crate::bytes::push_bytes;
use crate::bytes::push_u16_le;
use crate::bytes::push_u32_le;
use crate::bytes::push_u64_le;
use crate::codec::canonical_entry;
use crate::codec::container_bytes;
use crate::codec::container_header_bytes;
use crate::codec::entries_bytes;
use crate::codec::entry_bytes;
use crate::codec::entry_header_bytes;
use crate::codec::entry_sizes_fit;
use crate::codec::entry_wf;
use crate::codec::lemma_entries_bytes_take_step;
use crate::codec::lemma_total_size_nonneg;
use crate::codec::lemma_total_size_split;
use crate::codec::lemma_total_size_take_step;
use crate::codec::opt_bytes;
use crate::codec::opt_len;
use crate::codec::parse_container;
use crate::codec::parse_entries;
use crate::codec::parse_entry;
use crate::codec::parse_entry_header;
use crate::codec::ptxas_offset_field;
use crate::codec::sizes_fit;
use crate::codec::total_size;
use crate::codec::EntryView;
use crate::codec::FAT_BINARY_MAGIC;
use crate::error::FatBinaryError;
use crate::header::flag_64bit;
use crate::header::flag_compressed;
use crate::header::flag_debug;
use crate::header::host_of;
use crate::header::producer_of;
use crate::header::FatBinaryEntryHeader;
use crate::header::Host;
use crate::header::Producer;
use crate::header::FATBINARY_FLAG_COMPILE_SIZE_64BIT;
use crate::header::FATBINARY_FLAG_COMPRESSED;
use crate::lz77::decompress_spec;

verus! {

/// Whether a payload begins with the ELF magic `{0x7F, 'E', 'L', 'F'}`.
pub open spec fn elf_magic(p: Seq<u8>) -> bool {
    p.len() >= 4 && p[0] == 0x7f && p[1] == 0x45 && p[2] == 0x4c && p[3] == 0x46
}

/// The header of a freshly synthesized entry.
pub open spec fn synthesized_header(
    is_elf: bool,
    sm_arch: u32,
    major: u16,
    minor: u16,
    is_64bit: bool,
    payload_len: u64,
) -> FatBinaryEntryHeader {
    FatBinaryEntryHeader {
        kind: if is_elf {
            2
        } else {
            1
        },
        reserved1: 0x0101,
        header_size: 64,
        size: payload_len,
        compressed_size: 0,
        options_offset: 0x40,
        minor,
        major,
        arch: sm_arch,
        identifier_offset: 0,
        identifier_len: 0,
        flags: if is_64bit {
            FATBINARY_FLAG_COMPILE_SIZE_64BIT
        } else {
            0
        },
        zero: 0,
        decompressed_size: 0,
    }
}

/// The payload bytes an entry exposes: only the compressed run when the
/// compressed flag is lit, all payload bytes otherwise.
pub open spec fn entry_exposed_payload(e: EntryView) -> Seq<u8> {
    if flag_compressed(e.header.flags) {
        e.payload.subrange(0, e.header.compressed_size as int)
    } else {
        e.payload
    }
}

/// Whether a compressed entry's token stream is well formed, so that
/// decompression succeeds.
pub open spec fn entry_inflatable(e: EntryView) -> bool {
    flag_compressed(e.header.flags) ==> decompress_spec(entry_exposed_payload(e)) is Some
}

/// The decompressed payload bytes: the payload itself when not compressed.
pub open spec fn entry_decompressed_payload(e: EntryView) -> Seq<u8> {
    if flag_compressed(e.header.flags) {
        decompress_spec(entry_exposed_payload(e)).unwrap()
    } else {
        e.payload
    }
}

/// Whether decompressing in place succeeds: the token stream is well formed
/// and produces exactly the declared decompressed length.
pub open spec fn entry_decompress_ok(e: EntryView) -> bool {
    flag_compressed(e.header.flags) ==> {
        &&& decompress_spec(entry_exposed_payload(e)) is Some
        &&& entry_decompressed_payload(e).len() == e.header.decompressed_size
    }
}

/// An entry after decompressing in place: the payload replaced by its
/// decompression, the compressed flag cleared, `size` set to the declared
/// decompressed length, and both compression sizes zeroed. A plain entry is
/// unchanged.
pub open spec fn entry_decompressed(e: EntryView) -> EntryView {
    if flag_compressed(e.header.flags) {
        EntryView {
            header: FatBinaryEntryHeader {
                flags: e.header.flags & !FATBINARY_FLAG_COMPRESSED,
                size: e.header.decompressed_size,
                compressed_size: 0,
                decompressed_size: 0,
                ..e.header
            },
            payload: entry_decompressed_payload(e),
            ..e
        }
    } else {
        e
    }
}

/// Decompressing in place is idempotent: a second application changes
/// nothing, because the first clears the compressed flag.
pub proof fn lemma_decompress_idempotent(e: EntryView)
    ensures
        entry_decompressed(entry_decompressed(e)) == entry_decompressed(e),
{
    let f = e.header.flags;
    assert((f & !FATBINARY_FLAG_COMPRESSED) & FATBINARY_FLAG_COMPRESSED == 0) by (bit_vector);
}

/// A fatbinary entry: header fields, optional identifier and ptxas-option
/// strings (stored as their UTF-8 bytes), and the payload bytes.
#[derive(Debug)]
pub struct FatBinaryEntry {
    pub(crate) entry_header: FatBinaryEntryHeader,
    pub(crate) identifier: Option<Vec<u8>>,
    pub(crate) ptxas_options: Option<Vec<u8>>,
    pub(crate) payload: Vec<u8>,
}

impl View for FatBinaryEntry {
    type V = EntryView;

    closed spec fn view(&self) -> EntryView {
        EntryView {
            header: self.entry_header,
            identifier: match self.identifier {
                Some(v) => Some(v@),
                None => None,
            },
            ptxas_options: match self.ptxas_options {
                Some(v) => Some(v@),
                None => None,
            },
            payload: self.payload@,
        }
    }
}

impl FatBinaryEntry {
    #[verifier::type_invariant]
    spec fn inv(self) -> bool {
        entry_wf(self@)
    }

    /// Create a new entry, sniffing the kind: ELF when the payload begins
    /// with the ELF magic, PTX otherwise. Version is 0.0 and the 64-bit
    /// flag is lit.
    pub fn new_auto(sm_arch: u32, payload: Vec<u8>) -> (r: Self)
        ensures
            r@ == (EntryView {
                header: synthesized_header(
                    elf_magic(payload@),
                    sm_arch,
                    0,
                    0,
                    true,
                    payload@.len() as u64,
                ),
                identifier: None,
                ptxas_options: None,
                payload: payload@,
            }),
    {
        let is_elf = payload.len() >= 4 && payload[0] == 0x7f && payload[1] == 0x45 && payload[2]
            == 0x4c && payload[3] == 0x46;
        Self::new(is_elf, sm_arch, 0, 0, true, payload)
    }

    /// Create a new entry with the given kind, architecture, code version,
    /// host width and payload. Offsets and compression fields start zeroed.
    pub fn new(
        is_elf: bool,
        sm_arch: u32,
        major: u16,
        minor: u16,
        is_64bit: bool,
        payload: Vec<u8>,
    ) -> (r: Self)
        ensures
            r@ == (EntryView {
                header: synthesized_header(
                    is_elf,
                    sm_arch,
                    major,
                    minor,
                    is_64bit,
                    payload@.len() as u64,
                ),
                identifier: None,
                ptxas_options: None,
                payload: payload@,
            }),
    {
        let flags: u64 = if is_64bit {
            FATBINARY_FLAG_COMPILE_SIZE_64BIT
        } else {
            0
        };
        proof {
            assert(1u64 & FATBINARY_FLAG_COMPRESSED == 0) by (bit_vector);
            assert(0u64 & FATBINARY_FLAG_COMPRESSED == 0) by (bit_vector);
        }
        FatBinaryEntry {
            entry_header: FatBinaryEntryHeader {
                kind: if is_elf {
                    2
                } else {
                    1
                },
                reserved1: 0x0101,
                header_size: 64,
                size: payload.len() as u64,
                compressed_size: 0,
                options_offset: 0x40,
                minor,
                major,
                arch: sm_arch,
                identifier_offset: 0,
                identifier_len: 0,
                flags,
                zero: 0,
                decompressed_size: 0,
            },
            identifier: None,
            ptxas_options: None,
            payload,
        }
    }

    /// The payload bytes as stored: only the compressed run when the entry
    /// is compressed, trailing padding excluded.
    pub fn get_payload(&self) -> (r: &[u8])
        ensures
            r@ == entry_exposed_payload(self@),
    {
        proof {
            use_type_invariant(&*self);
        }
        if self.is_compressed() {
            vstd::slice::slice_subrange(
                self.payload.as_slice(),
                0,
                self.entry_header.compressed_size as usize,
            )
        } else {
            self.payload.as_slice()
        }
    }

    /// The payload bytes after decompression; the plain payload when the
    /// entry is not compressed. Does not mutate the entry.
    pub fn get_decompressed_payload(&self) -> (r: Vec<u8>)
        requires
            entry_inflatable(self@),
        ensures
            r@ == entry_decompressed_payload(self@),
    {
        proof {
            use_type_invariant(&*self);
        }
        if self.is_compressed() {
            let run = vstd::slice::slice_subrange(
                self.payload.as_slice(),
                0,
                self.entry_header.compressed_size as usize,
            );
            match crate::lz77::decompress(run) {
                Some(v) => v,
                None => {
                    proof {
                        assert(false);
                    }
                    Vec::new()
                },
            }
        } else {
            vstd::slice::slice_to_vec(self.payload.as_slice())
        }
    }

    /// Replace a compressed payload with its decompression, clearing the
    /// compressed flag and setting `size` to the decompressed length; a
    /// plain entry is left unchanged.
    pub fn decompress(&mut self)
        requires
            entry_decompress_ok(old(self)@),
        ensures
            final(self)@ == entry_decompressed(old(self)@),
    {
        proof {
            use_type_invariant(&*self);
        }
        if self.is_compressed() {
            let run = vstd::slice::slice_subrange(
                self.payload.as_slice(),
                0,
                self.entry_header.compressed_size as usize,
            );
            let decompressed: Vec<u8> = match crate::lz77::decompress(run) {
                Some(v) => v,
                None => {
                    proof {
                        assert(false);
                    }
                    Vec::new()
                },
            };
            let mut taken = FatBinaryEntry {
                entry_header: FatBinaryEntryHeader {
                    kind: 0,
                    reserved1: 0,
                    header_size: 0,
                    size: 0,
                    compressed_size: 0,
                    options_offset: 0,
                    minor: 0,
                    major: 0,
                    arch: 0,
                    identifier_offset: 0,
                    identifier_len: 0,
                    flags: 0,
                    zero: 0,
                    decompressed_size: 0,
                },
                identifier: None,
                ptxas_options: None,
                payload: Vec::new(),
            };
            proof {
                assert(0u64 & FATBINARY_FLAG_COMPRESSED == 0) by (bit_vector);
            }
            core::mem::swap(self, &mut taken);
            let FatBinaryEntry { entry_header, identifier, ptxas_options, payload: _ } = taken;
            proof {
                let f = entry_header.flags;
                assert((f & !FATBINARY_FLAG_COMPRESSED) & FATBINARY_FLAG_COMPRESSED == 0)
                    by (bit_vector);
            }
            *self = FatBinaryEntry {
                entry_header: FatBinaryEntryHeader {
                    flags: entry_header.flags & !FATBINARY_FLAG_COMPRESSED,
                    size: entry_header.decompressed_size,
                    compressed_size: 0,
                    decompressed_size: 0,
                    ..entry_header
                },
                identifier,
                ptxas_options,
                payload: decompressed,
            };
        }
    }

    /// Whether this entry holds an ELF cubin (kind 2) rather than PTX.
    pub fn contains_elf(&self) -> (r: bool)
        ensures
            r == (self@.header.kind == 2),
    {
        self.entry_header.kind == 2
    }

    /// The SM architecture number.
    pub fn get_sm_arch(&self) -> (r: u32)
        ensures
            r == self@.header.arch,
    {
        self.entry_header.arch
    }

    /// The code version major.
    pub fn get_version_major(&self) -> (r: u16)
        ensures
            r == self@.header.major,
    {
        self.entry_header.major
    }

    /// The code version minor.
    pub fn get_version_minor(&self) -> (r: u16)
        ensures
            r == self@.header.minor,
    {
        self.entry_header.minor
    }

    /// Whether the entry was compiled for a 64-bit host.
    pub fn is_64bit(&self) -> (r: bool)
        ensures
            r == flag_64bit(self@.header.flags),
    {
        self.entry_header.flags & FATBINARY_FLAG_COMPILE_SIZE_64BIT != 0
    }

    /// The host platform classifier of the flag bits.
    pub fn host(&self) -> (r: Host)
        ensures
            r == host_of(self@.header.flags),
    {
        if self.entry_header.flags & crate::header::FATBINARY_FLAG_HOST_LINUX != 0 {
            Host::Linux
        } else if self.entry_header.flags & crate::header::FATBINARY_FLAG_HOST_MAC != 0 {
            Host::Mac
        } else if self.entry_header.flags & crate::header::FATBINARY_FLAG_HOST_WINDOWS != 0 {
            Host::Windows
        } else {
            Host::Unknown
        }
    }

    /// The producer classifier of the flag bits.
    pub fn producer(&self) -> (r: Producer)
        ensures
            r == producer_of(self@.header.flags),
    {
        if self.entry_header.flags & crate::header::FATBINARY_FLAG_PRODUCER_CUDA != 0 {
            Producer::CUDA
        } else if self.entry_header.flags & crate::header::FATBINARY_FLAG_PRODUCER_OPENCL != 0 {
            Producer::OpenCL
        } else {
            Producer::Unknown
        }
    }

    /// Whether the compressed-payload flag is lit.
    pub fn is_compressed(&self) -> (r: bool)
        ensures
            r == flag_compressed(self@.header.flags),
    {
        self.entry_header.flags & FATBINARY_FLAG_COMPRESSED != 0
    }

    /// Whether the debug-info flag is lit.
    pub fn has_debug_info(&self) -> (r: bool)
        ensures
            r == flag_debug(self@.header.flags),
    {
        self.entry_header.flags & crate::header::FATBINARY_FLAG_DEBUG != 0
    }

    /// The raw header of this entry.
    pub fn get_header(&self) -> (r: &FatBinaryEntryHeader)
        ensures
            *r == self@.header,
    {
        &self.entry_header
    }

    /// The ptxas-option string, when present.
    pub fn get_ptxas_options(&self) -> (r: Option<&str>)
        ensures
            r is Some <==> self@.ptxas_options is Some,
            r matches Some(s) ==> self@.ptxas_options matches Some(b) && s@ == decode_utf8(b)
                && encode_utf8(s@) == b,
    {
        proof {
            use_type_invariant(&*self);
        }
        match &self.ptxas_options {
            Some(bytes) => match crate::text::bytes_as_str(bytes.as_slice()) {
                Some(s) => {
                    proof {
                        vstd::utf8::decode_utf8_encode_utf8(bytes@);
                    }
                    Some(s)
                },
                None => {
                    proof {
                        assert(false);
                    }
                    None
                },
            },
            None => None,
        }
    }

    /// The identifier (object name), when present.
    pub fn get_identifier(&self) -> (r: Option<&str>)
        ensures
            r is Some <==> self@.identifier is Some,
            r matches Some(s) ==> self@.identifier matches Some(b) && s@ == decode_utf8(b)
                && encode_utf8(s@) == b,
    {
        proof {
            use_type_invariant(&*self);
        }
        match &self.identifier {
            Some(bytes) => match crate::text::bytes_as_str(bytes.as_slice()) {
                Some(s) => {
                    proof {
                        vstd::utf8::decode_utf8_encode_utf8(bytes@);
                    }
                    Some(s)
                },
                None => {
                    proof {
                        assert(false);
                    }
                    None
                },
            },
            None => None,
        }
    }

    /// Set the identifier (object name) for this entry.
    pub fn set_identifier(&mut self, identifier: String)
        ensures
            final(self)@ == (EntryView { identifier: Some(encode_utf8(identifier@)), ..old(self)@ }),
    {
        proof {
            use_type_invariant(&*self);
            encode_utf8_valid_utf8(identifier@);
        }
        let bytes = vstd::slice::slice_to_vec(identifier.as_str().as_bytes());
        self.identifier = Some(bytes);
    }

    /// Set the ptxas-option string for this entry.
    pub fn set_ptxas_options(&mut self, options: String)
        ensures
            final(self)@ == (EntryView { ptxas_options: Some(encode_utf8(options@)), ..old(self)@ }),
    {
        proof {
            use_type_invariant(&*self);
            encode_utf8_valid_utf8(options@);
        }
        let bytes = vstd::slice::slice_to_vec(options.as_str().as_bytes());
        self.ptxas_options = Some(bytes);
    }
}

/// Emits one entry in the fixed output layout: the 64-byte header with
/// recomputed layout fields, the 8-byte ptxas-options descriptor, the
/// option bytes, the identifier bytes, then the payload.
#[verifier::rlimit(50)]
fn write_entry(out: &mut Vec<u8>, e: &FatBinaryEntry)
    requires
        entry_sizes_fit(e@),
    ensures
        final(out)@ == old(out)@ + entry_bytes(e@),
{
    let ghost h = canonical_entry(e@).header;
    proof {
        vstd::bytes::lemma_auto_spec_u16_to_from_le_bytes();
        vstd::bytes::lemma_auto_spec_u32_to_from_le_bytes();
        vstd::bytes::lemma_auto_spec_u64_to_from_le_bytes();
    }
    let p_len: usize = match &e.ptxas_options {
        Some(v) => v.len(),
        None => 0,
    };
    let i_len: usize = match &e.identifier {
        Some(v) => v.len(),
        None => 0,
    };
    let header_size: u32 = (72 + p_len + i_len) as u32;
    let identifier_offset: u32 = if i_len > 0 {
        (72 + p_len) as u32
    } else {
        0
    };
    push_u16_le(out, e.entry_header.kind);
    push_u16_le(out, e.entry_header.reserved1);
    push_u32_le(out, header_size);
    push_u64_le(out, e.entry_header.size);
    push_u32_le(out, e.entry_header.compressed_size);
    push_u32_le(out, 0x40);
    push_u16_le(out, e.entry_header.minor);
    push_u16_le(out, e.entry_header.major);
    push_u32_le(out, e.entry_header.arch);
    push_u32_le(out, identifier_offset);
    push_u32_le(out, i_len as u32);
    push_u64_le(out, e.entry_header.flags);
    push_u64_le(out, e.entry_header.zero);
    push_u64_le(out, e.entry_header.decompressed_size);
    proof {
        assert(out@ =~= old(out)@ + entry_header_bytes(h));
    }
    let ptxas_offset: u32 = if p_len > 0 {
        72
    } else {
        0
    };
    push_u32_le(out, ptxas_offset);
    push_u32_le(out, p_len as u32);
    proof {
        assert(out@ =~= old(out)@ + entry_header_bytes(h) + vstd::bytes::spec_u32_to_le_bytes(
            ptxas_offset_field(e@),
        ) + vstd::bytes::spec_u32_to_le_bytes(opt_len(e@.ptxas_options) as u32));
    }
    match &e.ptxas_options {
        Some(v) => push_bytes(out, v.as_slice(), 0, v.len()),
        None => (),
    }
    proof {
        assert(out@ =~= old(out)@ + entry_header_bytes(h) + vstd::bytes::spec_u32_to_le_bytes(
            ptxas_offset_field(e@),
        ) + vstd::bytes::spec_u32_to_le_bytes(opt_len(e@.ptxas_options) as u32) + opt_bytes(
            e@.ptxas_options,
        ));
    }
    match &e.identifier {
        Some(v) => push_bytes(out, v.as_slice(), 0, v.len()),
        None => (),
    }
    push_bytes(out, e.payload.as_slice(), 0, e.payload.len());
    proof {
        assert(out@ =~= old(out)@ + entry_bytes(e@));
    }
}

/// Decodes one entry at `pos`: the fixed 64-byte header, the offset-driven
/// trailing region bounded by the header region, then the payload. Returns
/// the entry and the number of bytes it occupies.
#[verifier::loop_isolation(false)]
fn read_entry(bytes: &[u8], pos: usize) -> (r: Result<(FatBinaryEntry, usize), FatBinaryError>)
    requires
        pos <= bytes@.len(),
    ensures
        r matches Ok(p) ==> parse_entry(bytes@, pos as int) matches Ok(q) && p.0@ == q.0 && p.1
            == q.1 && pos + p.1 <= bytes@.len() && p.1 >= 64,
        r matches Err(e) ==> parse_entry(bytes@, pos as int) matches Err(e2) && e == e2,
{
    let n: usize = bytes.len();
    if n - pos < 64 {
        return Err(FatBinaryError::UnexpectedEndOfInput);
    }
    let h = FatBinaryEntryHeader {
        kind: vstd::bytes::u16_from_le_bytes(vstd::slice::slice_subrange(bytes, pos, pos + 2)),
        reserved1: vstd::bytes::u16_from_le_bytes(
            vstd::slice::slice_subrange(bytes, pos + 2, pos + 4),
        ),
        header_size: vstd::bytes::u32_from_le_bytes(
            vstd::slice::slice_subrange(bytes, pos + 4, pos + 8),
        ),
        size: vstd::bytes::u64_from_le_bytes(
            vstd::slice::slice_subrange(bytes, pos + 8, pos + 16),
        ),
        compressed_size: vstd::bytes::u32_from_le_bytes(
            vstd::slice::slice_subrange(bytes, pos + 16, pos + 20),
        ),
        options_offset: vstd::bytes::u32_from_le_bytes(
            vstd::slice::slice_subrange(bytes, pos + 20, pos + 24),
        ),
        minor: vstd::bytes::u16_from_le_bytes(
            vstd::slice::slice_subrange(bytes, pos + 24, pos + 26),
        ),
        major: vstd::bytes::u16_from_le_bytes(
            vstd::slice::slice_subrange(bytes, pos + 26, pos + 28),
        ),
        arch: vstd::bytes::u32_from_le_bytes(
            vstd::slice::slice_subrange(bytes, pos + 28, pos + 32),
        ),
        identifier_offset: vstd::bytes::u32_from_le_bytes(
            vstd::slice::slice_subrange(bytes, pos + 32, pos + 36),
        ),
        identifier_len: vstd::bytes::u32_from_le_bytes(
            vstd::slice::slice_subrange(bytes, pos + 36, pos + 40),
        ),
        flags: vstd::bytes::u64_from_le_bytes(
            vstd::slice::slice_subrange(bytes, pos + 40, pos + 48),
        ),
        zero: vstd::bytes::u64_from_le_bytes(
            vstd::slice::slice_subrange(bytes, pos + 48, pos + 56),
        ),
        decompressed_size: vstd::bytes::u64_from_le_bytes(
            vstd::slice::slice_subrange(bytes, pos + 56, pos + 64),
        ),
    };
    proof {
        assert(h == parse_entry_header(bytes@, pos as int));
    }
    if h.header_size < 64 {
        return Err(FatBinaryError::UnexpectedEndOfInput);
    }
    if h.header_size as u64 > (n - pos) as u64 {
        return Err(FatBinaryError::UnexpectedEndOfInput);
    }
    let header_end: usize = pos + h.header_size as usize;
    if h.options_offset != 0 && h.options_offset != 0x40 {
        return Err(FatBinaryError::InvalidOffset { expected: 0x40, got: h.options_offset });
    }
    let mut ptxas_options: Option<Vec<u8>> = None;
    if h.options_offset != 0 {
        if h.options_offset as u64 + 8 > h.header_size as u64 {
            return Err(FatBinaryError::UnexpectedEndOfInput);
        }
        let o: usize = pos + h.options_offset as usize;
        let po = vstd::bytes::u32_from_le_bytes(vstd::slice::slice_subrange(bytes, o, o + 4));
        let psz = vstd::bytes::u32_from_le_bytes(
            vstd::slice::slice_subrange(bytes, o + 4, o + 8),
        );
        if po != 0 {
            if po as u64 + psz as u64 > h.header_size as u64 {
                return Err(FatBinaryError::UnexpectedEndOfInput);
            }
            let s: usize = pos + po as usize;
            let run = vstd::slice::slice_subrange(bytes, s, s + psz as usize);
            match crate::text::bytes_as_str(run) {
                Some(_) => {
                    ptxas_options = Some(vstd::slice::slice_to_vec(run));
                },
                None => {
                    return Err(FatBinaryError::InvalidUtf8);
                },
            }
        }
    }
    let mut identifier: Option<Vec<u8>> = None;
    if h.identifier_offset != 0 {
        if h.identifier_offset as u64 + h.identifier_len as u64 > h.header_size as u64 {
            return Err(FatBinaryError::UnexpectedEndOfInput);
        }
        let s: usize = pos + h.identifier_offset as usize;
        let run = vstd::slice::slice_subrange(bytes, s, s + h.identifier_len as usize);
        match crate::text::bytes_as_str(run) {
            Some(_) => {
                identifier = Some(vstd::slice::slice_to_vec(run));
            },
            None => {
                return Err(FatBinaryError::InvalidUtf8);
            },
        }
    }
    if h.size > (n - header_end) as u64 {
        return Err(FatBinaryError::UnexpectedEndOfInput);
    }
    if h.flags & FATBINARY_FLAG_COMPRESSED != 0 && h.compressed_size as u64 > h.size {
        return Err(FatBinaryError::UnexpectedEndOfInput);
    }
    let payload = vstd::slice::slice_to_vec(
        vstd::slice::slice_subrange(bytes, header_end, header_end + h.size as usize),
    );
    let consumed: usize = h.header_size as usize + h.size as usize;
    let entry = FatBinaryEntry { entry_header: h, identifier, ptxas_options, payload };
    Ok((entry, consumed))
}

/// A fatbinary container: an ordered sequence of entries.
#[derive(Debug)]
pub struct FatBinary {
    pub(crate) entries: Vec<FatBinaryEntry>,
}

/// The views of a sequence of entries, in order.
pub open spec fn views_of(es: Seq<FatBinaryEntry>) -> Seq<EntryView> {
    Seq::new(es.len(), |i: int| es[i]@)
}

impl View for FatBinary {
    type V = Seq<EntryView>;

    closed spec fn view(&self) -> Seq<EntryView> {
        views_of(self.entries@)
    }
}

impl FatBinary {
    /// Create a new empty fatbinary.
    pub fn new() -> (r: Self)
        ensures
            r@ == Seq::<EntryView>::empty(),
    {
        let r = FatBinary { entries: Vec::new() };
        proof {
            assert(r@ =~= Seq::<EntryView>::empty());
        }
        r
    }

    /// The entries contained in the fatbinary.
    pub fn entries(&self) -> (r: &Vec<FatBinaryEntry>)
        ensures
            r@.len() == self@.len(),
            forall|i: int| 0 <= i < r@.len() ==> (#[trigger] r@[i])@ == self@[i],
    {
        &self.entries
    }

    /// Decode a container from the start of `bytes`: validate the three
    /// header constants, then decode entries until exactly the declared
    /// entry-region size is consumed. Bytes after the container are left
    /// untouched, so back-to-back containers can be read in turn.
    #[verifier::loop_isolation(false)]
    pub fn read(bytes: &[u8]) -> (r: Result<FatBinary, FatBinaryError>)
        ensures
            r matches Ok(fb) ==> parse_container(bytes@) matches Ok(es) && fb@ == es,
            r matches Err(e) ==> parse_container(bytes@) matches Err(e2) && e == e2,
    {
        let n: usize = bytes.len();
        if n < 16 {
            return Err(FatBinaryError::UnexpectedEndOfInput);
        }
        let magic = vstd::bytes::u32_from_le_bytes(vstd::slice::slice_subrange(bytes, 0, 4));
        if magic != FAT_BINARY_MAGIC {
            return Err(FatBinaryError::InvalidMagic { expected: FAT_BINARY_MAGIC, got: magic });
        }
        let version = vstd::bytes::u16_from_le_bytes(vstd::slice::slice_subrange(bytes, 4, 6));
        if version != 1 {
            return Err(FatBinaryError::InvalidVersion { expected: 1, got: version });
        }
        let header_size = vstd::bytes::u16_from_le_bytes(vstd::slice::slice_subrange(bytes, 6, 8));
        if header_size != 16 {
            return Err(FatBinaryError::InvalidHeaderSize { expected: 16, got: header_size });
        }
        let size = vstd::bytes::u64_from_le_bytes(vstd::slice::slice_subrange(bytes, 8, 16));
        let mut entries: Vec<FatBinaryEntry> = Vec::new();
        proof {
            assert(views_of(entries@) =~= Seq::<EntryView>::empty());
        }
        let mut pos: usize = 16;
        let mut remaining: u64 = size;
        while remaining > 0
            invariant
                16 <= pos <= n,
                parse_container(bytes@) == parse_entries(
                    bytes@,
                    pos as int,
                    remaining as int,
                    views_of(entries@),
                ),
            decreases remaining,
        {
            match read_entry(bytes, pos) {
                Err(e) => {
                    return Err(e);
                },
                Ok((entry, consumed)) => {
                    if consumed as u64 > remaining {
                        return Err(FatBinaryError::UnexpectedEndOfInput);
                    }
                    proof {
                        assert(views_of(entries@.push(entry)) =~= views_of(entries@).push(entry@));
                    }
                    entries.push(entry);
                    pos = pos + consumed;
                    remaining = remaining - consumed as u64;
                },
            }
        }
        let fb = FatBinary { entries };
        proof {
            assert(fb@ =~= views_of(entries@));
        }
        Ok(fb)
    }

    /// Serialize the container: the 16-byte header with the summed entry
    /// sizes, then each entry in the fixed output layout, offsets
    /// recomputed. The compressed state of each payload is preserved
    /// verbatim.
    pub fn write(&self) -> (r: Vec<u8>)
        requires
            sizes_fit(self@),
        ensures
            r@ == container_bytes(self@),
    {
        let n: usize = self.entries.len();
        // sizing pass
        let mut total: u64 = 0;
        let mut idx: usize = 0;
        while idx < n
            invariant
                n == self.entries@.len(),
                idx <= n,
                sizes_fit(self@),
                total == total_size(self@.take(idx as int)),
            decreases n - idx,
        {
            proof {
                lemma_total_size_take_step(self@, idx as int);
                lemma_total_size_split(self@, idx as int + 1);
                lemma_total_size_nonneg(self@.skip(idx as int + 1));
            }
            let e = &self.entries[idx];
            let p_len: usize = match &e.ptxas_options {
                Some(v) => v.len(),
                None => 0,
            };
            let i_len: usize = match &e.identifier {
                Some(v) => v.len(),
                None => 0,
            };
            total = total + 72 + p_len as u64 + i_len as u64 + e.payload.len() as u64;
            idx = idx + 1;
        }
        proof {
            assert(self@.take(n as int) =~= self@);
        }
        // emission pass
        let mut out: Vec<u8> = Vec::new();
        push_u32_le(&mut out, FAT_BINARY_MAGIC);
        push_u16_le(&mut out, 1);
        push_u16_le(&mut out, 16);
        push_u64_le(&mut out, total);
        proof {
            assert(out@ =~= container_header_bytes(total_size(self@) as u64));
            assert(out@ =~= container_header_bytes(total_size(self@) as u64) + entries_bytes(
                self@.take(0),
            ));
        }
        let mut idx: usize = 0;
        while idx < n
            invariant
                n == self.entries@.len(),
                idx <= n,
                sizes_fit(self@),
                out@ == container_header_bytes(total_size(self@) as u64) + entries_bytes(
                    self@.take(idx as int),
                ),
            decreases n - idx,
        {
            proof {
                lemma_entries_bytes_take_step(self@, idx as int);
            }
            write_entry(&mut out, &self.entries[idx]);
            proof {
                assert(out@ =~= container_header_bytes(total_size(self@) as u64) + entries_bytes(
                    self@.take(idx as int + 1),
                ));
            }
            idx = idx + 1;
        }
        proof {
            assert(self@.take(n as int) =~= self@);
        }
        out
    }

    /// Exclusive access to the entries, to append, remove or reorder them.
    pub fn entries_mut(&mut self) -> (r: &mut Vec<FatBinaryEntry>)
        ensures
            r@.len() == old(self)@.len(),
            forall|i: int| 0 <= i < r@.len() ==> (#[trigger] r@[i])@ == old(self)@[i],
            final(self)@.len() == final(r)@.len(),
            forall|i: int|
                0 <= i < final(r)@.len() ==> #[trigger] final(self)@[i] == final(r)@[i]@,
    {
        &mut self.entries
    }
}

} // verus!

