//! The on-disk layout of a container, as spec functions over entry views:
//! what the writer emits and what the reader accepts.
//!
//! A container is a 16-byte header (magic `0xBA55ED50`, version 1, header
//! size 16, total entry-region size) followed by entries. Each entry is a
//! 64-byte fixed header, a trailing region addressed by offsets relative to
//! the entry start (an 8-byte ptxas-options descriptor, the ptxas-option
//! bytes, the identifier bytes), and the payload. The reader tolerates the
//! trailing pieces anywhere inside the header region; the writer emits one
//! fixed layout and recomputes the offset fields.

use vstd::bytes::spec_u16_from_le_bytes;
use vstd::bytes::spec_u16_to_le_bytes;
use vstd::bytes::spec_u32_from_le_bytes;
use vstd::bytes::spec_u32_to_le_bytes;
use vstd::bytes::spec_u64_from_le_bytes;
use vstd::bytes::spec_u64_to_le_bytes;
use vstd::prelude::*;
use vstd::utf8::valid_utf8;

use crate::error::FatBinaryError;
use crate::header::flag_compressed;
use crate::header::FatBinaryEntryHeader;

verus! {

/// The container magic number.
pub const FAT_BINARY_MAGIC: u32 = 0xBA55ED50;

/// The mathematical model of one entry: its header fields, the optional
/// identifier and ptxas-option byte strings, and the payload bytes.
pub struct EntryView {
    pub header: FatBinaryEntryHeader,
    pub identifier: Option<Seq<u8>>,
    pub ptxas_options: Option<Seq<u8>>,
    pub payload: Seq<u8>,
}

/// Length of an optional byte string; 0 when absent.
pub open spec fn opt_len(b: Option<Seq<u8>>) -> int {
    match b {
        Some(s) => s.len() as int,
        None => 0,
    }
}

/// An optional byte string's bytes; empty when absent.
pub open spec fn opt_bytes(b: Option<Seq<u8>>) -> Seq<u8> {
    match b {
        Some(s) => s,
        None => Seq::empty(),
    }
}

/// The emitted size of an entry's header region: the 64 fixed bytes, the
/// 8-byte ptxas-options descriptor, then the option and identifier bytes.
pub open spec fn entry_header_total(e: EntryView) -> int {
    72 + opt_len(e.ptxas_options) + opt_len(e.identifier)
}

/// The emitted size of a whole entry: header region plus payload.
pub open spec fn entry_total(e: EntryView) -> int {
    entry_header_total(e) + e.payload.len()
}

/// The sum of the emitted entry sizes: the container header's `size` field.
pub open spec fn total_size(es: Seq<EntryView>) -> int
    decreases es.len(),
{
    if es.len() == 0 {
        0
    } else {
        entry_total(es[0]) + total_size(es.skip(1))
    }
}

/// The header the writer emits for an entry: the stored header with the
/// four layout fields recomputed for the fixed output layout.
pub open spec fn canonical_header(e: EntryView) -> FatBinaryEntryHeader {
    FatBinaryEntryHeader {
        header_size: entry_header_total(e) as u32,
        options_offset: 0x40,
        identifier_offset: if opt_len(e.identifier) > 0 {
            (72 + opt_len(e.ptxas_options)) as u32
        } else {
            0
        },
        identifier_len: opt_len(e.identifier) as u32,
        ..e.header
    }
}

/// An absent-or-empty byte string normalized to absent, as reading an
/// emitted entry reports it: a zero-length string is written with a zero
/// offset, which reads back as no string at all.
pub open spec fn normalize_absent(b: Option<Seq<u8>>) -> Option<Seq<u8>> {
    match b {
        Some(s) => if s.len() == 0 {
            None
        } else {
            Some(s)
        },
        None => None,
    }
}

/// The entry as it reads back after being written: the canonical header and
/// the strings with empty ones normalized to absent.
pub open spec fn canonical_entry(e: EntryView) -> EntryView {
    EntryView {
        header: canonical_header(e),
        identifier: normalize_absent(e.identifier),
        ptxas_options: normalize_absent(e.ptxas_options),
        payload: e.payload,
    }
}

/// The 64 bytes of the fixed entry header, little-endian field by field.
pub open spec fn entry_header_bytes(h: FatBinaryEntryHeader) -> Seq<u8> {
    spec_u16_to_le_bytes(h.kind) + spec_u16_to_le_bytes(h.reserved1) + spec_u32_to_le_bytes(
        h.header_size,
    ) + spec_u64_to_le_bytes(h.size) + spec_u32_to_le_bytes(h.compressed_size)
        + spec_u32_to_le_bytes(h.options_offset) + spec_u16_to_le_bytes(h.minor)
        + spec_u16_to_le_bytes(h.major) + spec_u32_to_le_bytes(h.arch) + spec_u32_to_le_bytes(
        h.identifier_offset,
    ) + spec_u32_to_le_bytes(h.identifier_len) + spec_u64_to_le_bytes(h.flags)
        + spec_u64_to_le_bytes(h.zero) + spec_u64_to_le_bytes(h.decompressed_size)
}

/// The ptxas-options descriptor's first word: where the option bytes start,
/// or 0 when there are none.
pub open spec fn ptxas_offset_field(e: EntryView) -> u32 {
    if opt_len(e.ptxas_options) > 0 {
        72
    } else {
        0
    }
}

/// The bytes the writer emits for one entry: fixed header with recomputed
/// layout fields, the 8-byte ptxas-options descriptor, the option bytes,
/// the identifier bytes, then the payload.
pub open spec fn entry_bytes(e: EntryView) -> Seq<u8> {
    entry_header_bytes(canonical_entry(e).header) + spec_u32_to_le_bytes(ptxas_offset_field(e))
        + spec_u32_to_le_bytes(opt_len(e.ptxas_options) as u32) + opt_bytes(e.ptxas_options)
        + opt_bytes(e.identifier) + e.payload
}

/// The concatenated bytes of a sequence of entries.
pub open spec fn entries_bytes(es: Seq<EntryView>) -> Seq<u8>
    decreases es.len(),
{
    if es.len() == 0 {
        Seq::empty()
    } else {
        entry_bytes(es[0]) + entries_bytes(es.skip(1))
    }
}

/// The 16-byte container header for an entry region of `size` bytes.
pub open spec fn container_header_bytes(size: u64) -> Seq<u8> {
    spec_u32_to_le_bytes(FAT_BINARY_MAGIC) + spec_u16_to_le_bytes(1u16) + spec_u16_to_le_bytes(
        16u16,
    ) + spec_u64_to_le_bytes(size)
}

/// The bytes the writer emits for a whole container.
pub open spec fn container_bytes(es: Seq<EntryView>) -> Seq<u8> {
    container_header_bytes(total_size(es) as u64) + entries_bytes(es)
}

/// The per-entry machine bounds the writer needs: the recomputed header
/// region size must fit the 32-bit header fields.
pub open spec fn entry_sizes_fit(e: EntryView) -> bool {
    entry_header_total(e) <= u32::MAX
}

/// The machine bounds the writer needs: every header region size fits its
/// 32-bit field, and the summed entry sizes fit the 64-bit size field.
pub open spec fn sizes_fit(es: Seq<EntryView>) -> bool {
    &&& forall|i: int| 0 <= i < es.len() ==> entry_sizes_fit(#[trigger] es[i])
    &&& total_size(es) <= u64::MAX
}

/// What a parsed entry must satisfy beyond `sizes_fit` for writing it back
/// to reproduce it: the stored strings are valid UTF-8, the `size` field
/// equals the payload length, and a compressed run lies inside the payload.
pub open spec fn entry_wf(e: EntryView) -> bool {
    &&& e.header.size == e.payload.len()
    &&& flag_compressed(e.header.flags) ==> e.header.compressed_size <= e.header.size
    &&& (e.identifier matches Some(b) ==> valid_utf8(b))
    &&& (e.ptxas_options matches Some(b) ==> valid_utf8(b))
}

/// Every entry occupies at least its 72 leading header bytes.
pub proof fn lemma_total_size_nonneg(es: Seq<EntryView>)
    ensures
        total_size(es) >= 0,
    decreases es.len(),
{
    if es.len() > 0 {
        lemma_total_size_nonneg(es.skip(1));
    }
}

/// The summed size of a prefix splits off the size of the next entry.
pub proof fn lemma_total_size_take_step(es: Seq<EntryView>, i: int)
    requires
        0 <= i < es.len(),
    ensures
        total_size(es.take(i + 1)) == total_size(es.take(i)) + entry_total(es[i]),
    decreases i,
{
    if i == 0 {
        assert(es.take(1).skip(1) =~= Seq::<EntryView>::empty());
        assert(es.take(0) =~= Seq::<EntryView>::empty());
        assert(es.take(1)[0] == es[0]);
    } else {
        lemma_total_size_take_step(es.skip(1), i - 1);
        assert(es.take(i + 1).skip(1) =~= es.skip(1).take(i));
        assert(es.take(i).skip(1) =~= es.skip(1).take(i - 1));
        assert(es.take(i + 1)[0] == es[0]);
        assert(es.take(i)[0] == es[0]);
        assert(es.skip(1)[i - 1] == es[i]);
    }
}

/// The whole sum splits at any index into prefix and suffix sums.
pub proof fn lemma_total_size_split(es: Seq<EntryView>, i: int)
    requires
        0 <= i <= es.len(),
    ensures
        total_size(es) == total_size(es.take(i)) + total_size(es.skip(i)),
    decreases i,
{
    if i == 0 {
        assert(es.take(0) =~= Seq::<EntryView>::empty());
        assert(es.skip(0) =~= es);
    } else {
        lemma_total_size_split(es.skip(1), i - 1);
        assert(es.skip(1).take(i - 1) =~= es.take(i).skip(1));
        assert(es.skip(1).skip(i - 1) =~= es.skip(i));
        assert(es.take(i)[0] == es[0]);
    }
}

/// The concatenated entry bytes of a prefix extend by the next entry's
/// bytes.
pub proof fn lemma_entries_bytes_take_step(es: Seq<EntryView>, i: int)
    requires
        0 <= i < es.len(),
    ensures
        entries_bytes(es.take(i + 1)) == entries_bytes(es.take(i)) + entry_bytes(es[i]),
    decreases i,
{
    if i == 0 {
        assert(es.take(1).skip(1) =~= Seq::<EntryView>::empty());
        assert(es.take(0) =~= Seq::<EntryView>::empty());
        assert(es.take(1)[0] == es[0]);
        assert(entries_bytes(Seq::<EntryView>::empty()) == Seq::<u8>::empty());
        assert(entries_bytes(es.take(1)) =~= entry_bytes(es[0]));
        assert(entries_bytes(es.take(0)) + entry_bytes(es[0]) =~= entry_bytes(es[0]));
    } else {
        lemma_entries_bytes_take_step(es.skip(1), i - 1);
        assert(es.take(i + 1).skip(1) =~= es.skip(1).take(i));
        assert(es.take(i).skip(1) =~= es.skip(1).take(i - 1));
        assert(es.take(i + 1)[0] == es[0]);
        assert(es.take(i)[0] == es[0]);
        assert(es.skip(1)[i - 1] == es[i]);
        assert(entry_bytes(es[0]) + (entries_bytes(es.skip(1).take(i - 1)) + entry_bytes(es[i]))
            =~= (entry_bytes(es[0]) + entries_bytes(es.skip(1).take(i - 1))) + entry_bytes(
            es[i],
        ));
    }
}

/// Reads the fixed 64-byte entry header at `pos` (bounds already checked).
pub open spec fn parse_entry_header(bytes: Seq<u8>, pos: int) -> FatBinaryEntryHeader {
    FatBinaryEntryHeader {
        kind: spec_u16_from_le_bytes(bytes.subrange(pos, pos + 2)),
        reserved1: spec_u16_from_le_bytes(bytes.subrange(pos + 2, pos + 4)),
        header_size: spec_u32_from_le_bytes(bytes.subrange(pos + 4, pos + 8)),
        size: spec_u64_from_le_bytes(bytes.subrange(pos + 8, pos + 16)),
        compressed_size: spec_u32_from_le_bytes(bytes.subrange(pos + 16, pos + 20)),
        options_offset: spec_u32_from_le_bytes(bytes.subrange(pos + 20, pos + 24)),
        minor: spec_u16_from_le_bytes(bytes.subrange(pos + 24, pos + 26)),
        major: spec_u16_from_le_bytes(bytes.subrange(pos + 26, pos + 28)),
        arch: spec_u32_from_le_bytes(bytes.subrange(pos + 28, pos + 32)),
        identifier_offset: spec_u32_from_le_bytes(bytes.subrange(pos + 32, pos + 36)),
        identifier_len: spec_u32_from_le_bytes(bytes.subrange(pos + 36, pos + 40)),
        flags: spec_u64_from_le_bytes(bytes.subrange(pos + 40, pos + 48)),
        zero: spec_u64_from_le_bytes(bytes.subrange(pos + 48, pos + 56)),
        decompressed_size: spec_u64_from_le_bytes(bytes.subrange(pos + 56, pos + 64)),
    }
}

/// Reads the ptxas-option bytes of the entry at `pos`, following the
/// descriptor that `options_offset` locates. The descriptor and the option
/// bytes must lie inside the header region; the bytes must be UTF-8.
pub open spec fn parse_ptxas_options(bytes: Seq<u8>, pos: int, h: FatBinaryEntryHeader) -> Result<
    Option<Seq<u8>>,
    FatBinaryError,
> {
    if h.options_offset == 0 {
        Ok(None)
    } else if h.options_offset + 8 > h.header_size {
        Err(FatBinaryError::UnexpectedEndOfInput)
    } else {
        let po = spec_u32_from_le_bytes(
            bytes.subrange(pos + h.options_offset, pos + h.options_offset + 4),
        );
        let psz = spec_u32_from_le_bytes(
            bytes.subrange(pos + h.options_offset + 4, pos + h.options_offset + 8),
        );
        if po == 0 {
            Ok(None)
        } else if po + psz > h.header_size {
            Err(FatBinaryError::UnexpectedEndOfInput)
        } else {
            let b = bytes.subrange(pos + po, pos + po + psz);
            if valid_utf8(b) {
                Ok(Some(b))
            } else {
                Err(FatBinaryError::InvalidUtf8)
            }
        }
    }
}

/// Reads the identifier bytes of the entry at `pos`. They must lie inside
/// the header region and be UTF-8.
pub open spec fn parse_identifier(bytes: Seq<u8>, pos: int, h: FatBinaryEntryHeader) -> Result<
    Option<Seq<u8>>,
    FatBinaryError,
> {
    if h.identifier_offset == 0 {
        Ok(None)
    } else if h.identifier_offset + h.identifier_len > h.header_size {
        Err(FatBinaryError::UnexpectedEndOfInput)
    } else {
        let b = bytes.subrange(
            pos + h.identifier_offset,
            pos + h.identifier_offset + h.identifier_len,
        );
        if valid_utf8(b) {
            Ok(Some(b))
        } else {
            Err(FatBinaryError::InvalidUtf8)
        }
    }
}

/// Parses one entry at `pos`: the fixed header, the offset-driven trailing
/// region, then the payload. Returns the entry and the bytes it occupies.
/// A nonzero `options_offset` other than `0x40` is rejected; any read that
/// leaves its bounded region fails with `UnexpectedEndOfInput`.
pub open spec fn parse_entry(bytes: Seq<u8>, pos: int) -> Result<
    (EntryView, int),
    FatBinaryError,
> {
    if pos + 64 > bytes.len() {
        Err(FatBinaryError::UnexpectedEndOfInput)
    } else {
        let h = parse_entry_header(bytes, pos);
        if h.header_size < 64 {
            Err(FatBinaryError::UnexpectedEndOfInput)
        } else if pos + h.header_size > bytes.len() {
            Err(FatBinaryError::UnexpectedEndOfInput)
        } else if h.options_offset != 0 && h.options_offset != 0x40 {
            Err(FatBinaryError::InvalidOffset { expected: 0x40, got: h.options_offset })
        } else {
            match parse_ptxas_options(bytes, pos, h) {
                Err(e) => Err(e),
                Ok(ptxas_options) => match parse_identifier(bytes, pos, h) {
                    Err(e) => Err(e),
                    Ok(identifier) => {
                        if pos + h.header_size + h.size > bytes.len() {
                            Err(FatBinaryError::UnexpectedEndOfInput)
                        } else if flag_compressed(h.flags) && h.compressed_size > h.size {
                            Err(FatBinaryError::UnexpectedEndOfInput)
                        } else {
                            Ok(
                                (
                                    EntryView {
                                        header: h,
                                        identifier,
                                        ptxas_options,
                                        payload: bytes.subrange(
                                            pos + h.header_size,
                                            pos + h.header_size + h.size,
                                        ),
                                    },
                                    h.header_size + h.size,
                                ),
                            )
                        }
                    },
                },
            }
        }
    }
}

/// Parses entries from `pos` until exactly `remaining` bytes of the entry
/// region are consumed; consuming past it is a structural error.
pub open spec fn parse_entries(
    bytes: Seq<u8>,
    pos: int,
    remaining: int,
    acc: Seq<EntryView>,
) -> Result<Seq<EntryView>, FatBinaryError>
    decreases remaining,
{
    if remaining <= 0 {
        Ok(acc)
    } else {
        match parse_entry(bytes, pos) {
            Err(e) => Err(e),
            Ok((entry, consumed)) => {
                if consumed <= 0 || consumed > remaining {
                    Err(FatBinaryError::UnexpectedEndOfInput)
                } else {
                    parse_entries(bytes, pos + consumed, remaining - consumed, acc.push(entry))
                }
            },
        }
    }
}

/// The fixed entry header always encodes to 64 bytes.
pub proof fn lemma_entry_header_bytes_len(h: FatBinaryEntryHeader)
    ensures
        entry_header_bytes(h).len() == 64,
{
    vstd::bytes::lemma_auto_spec_u16_to_from_le_bytes();
    vstd::bytes::lemma_auto_spec_u32_to_from_le_bytes();
    vstd::bytes::lemma_auto_spec_u64_to_from_le_bytes();
}

/// An entry encodes to exactly the size the sizing pass gives it.
pub proof fn lemma_entry_bytes_len(e: EntryView)
    ensures
        entry_bytes(e).len() == entry_total(e),
{
    lemma_entry_header_bytes_len(canonical_entry(e).header);
    vstd::bytes::lemma_auto_spec_u32_to_from_le_bytes();
}

/// Parsing the fixed 64-byte header out of any byte sequence that holds an
/// encoded header at `pos` recovers its fields.
#[verifier::spinoff_prover]
#[verifier::rlimit(50)]
pub proof fn lemma_parse_entry_header_at(bytes: Seq<u8>, pos: int, h: FatBinaryEntryHeader)
    requires
        0 <= pos,
        pos + 64 <= bytes.len(),
        bytes.subrange(pos, pos + 64) == entry_header_bytes(h),
    ensures
        parse_entry_header(bytes, pos) == h,
{
    vstd::bytes::lemma_auto_spec_u16_to_from_le_bytes();
    vstd::bytes::lemma_auto_spec_u32_to_from_le_bytes();
    vstd::bytes::lemma_auto_spec_u64_to_from_le_bytes();
    let ehb = entry_header_bytes(h);
    assert(ehb.subrange(0, 2) =~= spec_u16_to_le_bytes(h.kind));
    assert(ehb.subrange(2, 4) =~= spec_u16_to_le_bytes(h.reserved1));
    assert(ehb.subrange(4, 8) =~= spec_u32_to_le_bytes(h.header_size));
    assert(ehb.subrange(8, 16) =~= spec_u64_to_le_bytes(h.size));
    assert(ehb.subrange(16, 20) =~= spec_u32_to_le_bytes(h.compressed_size));
    assert(ehb.subrange(20, 24) =~= spec_u32_to_le_bytes(h.options_offset));
    assert(ehb.subrange(24, 26) =~= spec_u16_to_le_bytes(h.minor));
    assert(ehb.subrange(26, 28) =~= spec_u16_to_le_bytes(h.major));
    assert(ehb.subrange(28, 32) =~= spec_u32_to_le_bytes(h.arch));
    assert(ehb.subrange(32, 36) =~= spec_u32_to_le_bytes(h.identifier_offset));
    assert(ehb.subrange(36, 40) =~= spec_u32_to_le_bytes(h.identifier_len));
    assert(ehb.subrange(40, 48) =~= spec_u64_to_le_bytes(h.flags));
    assert(ehb.subrange(48, 56) =~= spec_u64_to_le_bytes(h.zero));
    assert(ehb.subrange(56, 64) =~= spec_u64_to_le_bytes(h.decompressed_size));
    assert forall|a: int, b: int| 0 <= a <= b <= 64 implies bytes.subrange(pos + a, pos + b)
        =~= ehb.subrange(a, b) by {
        assert(forall|i: int|
            0 <= i < 64 ==> bytes[pos + i] == #[trigger] bytes.subrange(pos, pos + 64)[i]);
    }
    assert(bytes.subrange(pos, pos + 2) == ehb.subrange(0, 2));
    assert(bytes.subrange(pos + 2, pos + 4) == ehb.subrange(2, 4));
    assert(bytes.subrange(pos + 4, pos + 8) == ehb.subrange(4, 8));
    assert(bytes.subrange(pos + 8, pos + 16) == ehb.subrange(8, 16));
    assert(bytes.subrange(pos + 16, pos + 20) == ehb.subrange(16, 20));
    assert(bytes.subrange(pos + 20, pos + 24) == ehb.subrange(20, 24));
    assert(bytes.subrange(pos + 24, pos + 26) == ehb.subrange(24, 26));
    assert(bytes.subrange(pos + 26, pos + 28) == ehb.subrange(26, 28));
    assert(bytes.subrange(pos + 28, pos + 32) == ehb.subrange(28, 32));
    assert(bytes.subrange(pos + 32, pos + 36) == ehb.subrange(32, 36));
    assert(bytes.subrange(pos + 36, pos + 40) == ehb.subrange(36, 40));
    assert(bytes.subrange(pos + 40, pos + 48) == ehb.subrange(40, 48));
    assert(bytes.subrange(pos + 48, pos + 56) == ehb.subrange(48, 56));
    assert(bytes.subrange(pos + 56, pos + 64) == ehb.subrange(56, 64));
}

/// Parsing an encoded entry out of any byte sequence that holds it at `pos`
/// yields the entry with its layout fields recomputed and empty strings
/// normalized to absent, and consumes exactly its emitted size.
#[verifier::spinoff_prover]
#[verifier::rlimit(80)]
pub proof fn lemma_parse_entry_at(bytes: Seq<u8>, pos: int, e: EntryView)
    requires
        0 <= pos,
        pos + entry_total(e) <= bytes.len(),
        bytes.subrange(pos, pos + entry_total(e)) == entry_bytes(e),
        entry_sizes_fit(e),
        entry_wf(e),
    ensures
        parse_entry(bytes, pos) == Ok::<(EntryView, int), FatBinaryError>(
            (canonical_entry(e), entry_total(e)),
        ),
{
    vstd::bytes::lemma_auto_spec_u16_to_from_le_bytes();
    vstd::bytes::lemma_auto_spec_u32_to_from_le_bytes();
    vstd::bytes::lemma_auto_spec_u64_to_from_le_bytes();
    let ch = canonical_entry(e).header;
    let eb = entry_bytes(e);
    let p = opt_len(e.ptxas_options);
    let i = opt_len(e.identifier);
    let ht = entry_header_total(e);
    let et = entry_total(e);
    lemma_entry_header_bytes_len(ch);
    lemma_entry_bytes_len(e);
    assert forall|a: int, b: int| 0 <= a <= b <= et implies bytes.subrange(pos + a, pos + b)
        =~= eb.subrange(a, b) by {
        assert(forall|k: int|
            0 <= k < et ==> bytes[pos + k] == #[trigger] bytes.subrange(pos, pos + et)[k]);
    }
    assert(eb.subrange(0, 64) =~= entry_header_bytes(ch));
    lemma_parse_entry_header_at(bytes, pos, ch);
    assert(ch.header_size == ht);
    assert(ch.options_offset == 0x40);
    assert(eb.subrange(64, 68) =~= spec_u32_to_le_bytes(ptxas_offset_field(e)));
    assert(eb.subrange(68, 72) =~= spec_u32_to_le_bytes(p as u32));
    assert(spec_u32_from_le_bytes(bytes.subrange(pos + 64, pos + 68)) == ptxas_offset_field(e));
    assert(spec_u32_from_le_bytes(bytes.subrange(pos + 68, pos + 72)) == p as u32);
    assert(eb.subrange(72, 72 + p) =~= opt_bytes(e.ptxas_options));
    assert(eb.subrange(72 + p, ht) =~= opt_bytes(e.identifier));
    assert(eb.subrange(ht, et) =~= e.payload);
    assert(parse_ptxas_options(bytes, pos, ch) == Ok::<Option<Seq<u8>>, FatBinaryError>(
        normalize_absent(e.ptxas_options),
    )) by {
        if p > 0 {
            let s = e.ptxas_options.unwrap();
            assert(bytes.subrange(pos + 72, pos + 72 + p) == s);
        }
    }
    assert(parse_identifier(bytes, pos, ch) == Ok::<Option<Seq<u8>>, FatBinaryError>(
        normalize_absent(e.identifier),
    )) by {
        if i > 0 {
            let s = e.identifier.unwrap();
            assert(ch.identifier_offset == 72 + p && ch.identifier_len == i);
            assert(bytes.subrange(pos + 72 + p, pos + 72 + p + i) == s);
        }
    }
    assert(bytes.subrange(pos + ht, pos + ht + e.header.size) == e.payload);
    assert(parse_entry(bytes, pos) == Ok::<(EntryView, int), FatBinaryError>(
        (canonical_entry(e), entry_total(e)),
    ));
}

/// The entries that parse back out of concatenated entry bytes, one per
/// encoded entry, in order.
pub open spec fn canonical_entries(es: Seq<EntryView>) -> Seq<EntryView> {
    Seq::new(es.len(), |i: int| canonical_entry(es[i]))
}

/// Parsing a run of encoded entries at `pos`, with exactly their summed
/// size as the budget, yields them all, canonicalized, in order.
proof fn lemma_parse_entries_at(bytes: Seq<u8>, pos: int, es: Seq<EntryView>, acc: Seq<EntryView>)
    requires
        0 <= pos,
        pos + total_size(es) <= bytes.len(),
        bytes.subrange(pos, pos + total_size(es)) == entries_bytes(es),
        forall|k: int|
            0 <= k < es.len() ==> entry_sizes_fit(#[trigger] es[k]) && entry_wf(es[k]),
    ensures
        parse_entries(bytes, pos, total_size(es), acc) == Ok::<Seq<EntryView>, FatBinaryError>(
            acc + canonical_entries(es),
        ),
    decreases es.len(),
{
    if es.len() == 0 {
        assert(acc + canonical_entries(es) =~= acc);
    } else {
        let e = es[0];
        let rest = es.skip(1);
        lemma_total_size_nonneg(rest);
        lemma_entry_bytes_len(e);
        assert(total_size(es) == entry_total(e) + total_size(rest));
        let et = entry_total(e);
        let ts = total_size(es);
        assert(entries_bytes(es) == entry_bytes(e) + entries_bytes(rest));
        assert(forall|k: int|
            0 <= k < ts ==> bytes[pos + k] == #[trigger] bytes.subrange(pos, pos + ts)[k]);
        assert(bytes.subrange(pos, pos + et) =~= entry_bytes(e));
        lemma_parse_entry_at(bytes, pos, e);
        lemma_entries_bytes_len(rest);
        assert forall|k: int| 0 <= k < total_size(rest) implies bytes[pos + et + k]
            == entries_bytes(rest)[k] by {
            assert(bytes[pos + et + k] == bytes.subrange(pos, pos + ts)[et + k]);
            assert(entries_bytes(es)[et + k] == entries_bytes(rest)[k]);
        }
        assert(bytes.subrange(pos + et, pos + et + total_size(rest)) =~= entries_bytes(rest));
        lemma_parse_entries_at(bytes, pos + et, rest, acc.push(canonical_entry(e)));
        assert(acc.push(canonical_entry(e)) + canonical_entries(rest) =~= acc + canonical_entries(
            es,
        ));
    }
}

/// LAW — round-trip: parsing a written container yields exactly its entries
/// with the four layout fields recomputed for the output layout and empty
/// strings normalized to absent; every other header field, both strings and
/// the payload bytes read back unchanged, in order ([`lemma_canonical_entry_semantics`]).
pub proof fn lemma_write_read_roundtrip(es: Seq<EntryView>)
    requires
        sizes_fit(es),
        forall|k: int| 0 <= k < es.len() ==> entry_wf(#[trigger] es[k]),
    ensures
        parse_container(container_bytes(es)) == Ok::<Seq<EntryView>, FatBinaryError>(
            canonical_entries(es),
        ),
{
    vstd::bytes::lemma_auto_spec_u16_to_from_le_bytes();
    vstd::bytes::lemma_auto_spec_u32_to_from_le_bytes();
    vstd::bytes::lemma_auto_spec_u64_to_from_le_bytes();
    let bytes = container_bytes(es);
    let ts = total_size(es);
    lemma_total_size_nonneg(es);
    let chb = container_header_bytes(ts as u64);
    lemma_entries_bytes_len(es);
    assert(chb.len() == 16);
    assert(chb.subrange(0, 4) =~= spec_u32_to_le_bytes(FAT_BINARY_MAGIC));
    assert(chb.subrange(4, 6) =~= spec_u16_to_le_bytes(1u16));
    assert(chb.subrange(6, 8) =~= spec_u16_to_le_bytes(16u16));
    assert(chb.subrange(8, 16) =~= spec_u64_to_le_bytes(ts as u64));
    assert(bytes.subrange(0, 4) =~= chb.subrange(0, 4));
    assert(bytes.subrange(4, 6) =~= chb.subrange(4, 6));
    assert(bytes.subrange(6, 8) =~= chb.subrange(6, 8));
    assert(bytes.subrange(8, 16) =~= chb.subrange(8, 16));
    assert(spec_u32_from_le_bytes(bytes.subrange(0, 4)) == FAT_BINARY_MAGIC);
    assert(spec_u16_from_le_bytes(bytes.subrange(4, 6)) == 1);
    assert(spec_u16_from_le_bytes(bytes.subrange(6, 8)) == 16);
    assert(spec_u64_from_le_bytes(bytes.subrange(8, 16)) == ts as u64);
    assert(bytes.subrange(16, 16 + ts) =~= entries_bytes(es));
    lemma_parse_entries_at(bytes, 16, es, Seq::empty());
    assert(Seq::empty() + canonical_entries(es) =~= canonical_entries(es));
}

/// LAW — round-trip identity: entries already in the written layout (as
/// any entry read from a written container is) read back from their own
/// written bytes unchanged, in order.
pub proof fn lemma_write_read_identity(es: Seq<EntryView>)
    requires
        sizes_fit(es),
        forall|k: int| 0 <= k < es.len() ==> entry_wf(#[trigger] es[k]),
        forall|k: int| 0 <= k < es.len() ==> canonical_entry(#[trigger] es[k]) == es[k],
    ensures
        parse_container(container_bytes(es)) == Ok::<Seq<EntryView>, FatBinaryError>(es),
{
    lemma_write_read_roundtrip(es);
    assert(canonical_entries(es) =~= es);
}

/// LAW — byte-exact round-trip: parsing the bytes the writer emits and
/// re-emitting what was parsed reproduces those bytes exactly.
pub proof fn lemma_read_write_byte_exact(es: Seq<EntryView>)
    requires
        sizes_fit(es),
        forall|k: int| 0 <= k < es.len() ==> entry_wf(#[trigger] es[k]),
    ensures
        parse_container(container_bytes(es)) matches Ok(cs) && container_bytes(cs)
            == container_bytes(es),
{
    lemma_write_read_roundtrip(es);
    lemma_write_canonical_stable(es);
}

/// The concatenated entry bytes have exactly the summed entry size.
pub proof fn lemma_entries_bytes_len(es: Seq<EntryView>)
    ensures
        entries_bytes(es).len() == total_size(es),
    decreases es.len(),
{
    if es.len() > 0 {
        lemma_entry_bytes_len(es[0]);
        lemma_entries_bytes_len(es.skip(1));
    }
}

/// Canonicalizing an entry changes none of the bytes the writer emits for
/// it, so re-writing a container read from written bytes reproduces those
/// bytes exactly.
pub proof fn lemma_entry_bytes_canonical(e: EntryView)
    ensures
        entry_bytes(canonical_entry(e)) == entry_bytes(e),
        entry_total(canonical_entry(e)) == entry_total(e),
        entry_sizes_fit(e) ==> entry_sizes_fit(canonical_entry(e)),
        entry_wf(e) ==> entry_wf(canonical_entry(e)),
{
    let c = canonical_entry(e);
    assert(opt_bytes(c.ptxas_options) =~= opt_bytes(e.ptxas_options));
    assert(opt_bytes(c.identifier) =~= opt_bytes(e.identifier));
    assert(canonical_entry(c).header == canonical_entry(e).header);
    assert(entry_bytes(c) =~= entry_bytes(e));
}

/// LAW — write stability: a container's canonicalized entries write back to
/// byte-identical output, so write-read-write reproduces the written bytes.
pub proof fn lemma_write_canonical_stable(es: Seq<EntryView>)
    ensures
        container_bytes(canonical_entries(es)) == container_bytes(es),
{
    lemma_total_size_canonical(es);
    lemma_entries_bytes_canonical(es);
}

proof fn lemma_total_size_canonical(es: Seq<EntryView>)
    ensures
        total_size(canonical_entries(es)) == total_size(es),
    decreases es.len(),
{
    if es.len() > 0 {
        lemma_entry_bytes_canonical(es[0]);
        lemma_total_size_canonical(es.skip(1));
        assert(canonical_entries(es).skip(1) =~= canonical_entries(es.skip(1)));
        assert(canonical_entries(es)[0] == canonical_entry(es[0]));
    } else {
        assert(canonical_entries(es).len() == 0);
    }
}

proof fn lemma_entries_bytes_canonical(es: Seq<EntryView>)
    ensures
        entries_bytes(canonical_entries(es)) == entries_bytes(es),
    decreases es.len(),
{
    if es.len() > 0 {
        lemma_entry_bytes_canonical(es[0]);
        lemma_entries_bytes_canonical(es.skip(1));
        assert(canonical_entries(es).skip(1) =~= canonical_entries(es.skip(1)));
        assert(canonical_entries(es)[0] == canonical_entry(es[0]));
    } else {
        assert(canonical_entries(es).len() == 0);
    }
}

/// Canonicalization touches only the four layout fields: every semantic
/// header field, the payload, and each nonempty string read back unchanged.
pub proof fn lemma_canonical_entry_semantics(e: EntryView)
    ensures
        canonical_entry(e).header.kind == e.header.kind,
        canonical_entry(e).header.reserved1 == e.header.reserved1,
        canonical_entry(e).header.size == e.header.size,
        canonical_entry(e).header.compressed_size == e.header.compressed_size,
        canonical_entry(e).header.minor == e.header.minor,
        canonical_entry(e).header.major == e.header.major,
        canonical_entry(e).header.arch == e.header.arch,
        canonical_entry(e).header.flags == e.header.flags,
        canonical_entry(e).header.zero == e.header.zero,
        canonical_entry(e).header.decompressed_size == e.header.decompressed_size,
        canonical_entry(e).payload == e.payload,
        e.identifier matches Some(b) ==> (b.len() > 0 ==> canonical_entry(e).identifier == Some(
            b,
        )),
        e.identifier is None ==> canonical_entry(e).identifier is None,
        e.ptxas_options matches Some(b) ==> (b.len() > 0 ==> canonical_entry(e).ptxas_options
            == Some(b)),
        e.ptxas_options is None ==> canonical_entry(e).ptxas_options is None,
{
}

/// Parses a container from the start of `bytes`: the 16-byte header with
/// its three mandatory constants, then entries until the declared size is
/// consumed. Bytes after the container are ignored.
pub open spec fn parse_container(bytes: Seq<u8>) -> Result<Seq<EntryView>, FatBinaryError> {
    if bytes.len() < 16 {
        Err(FatBinaryError::UnexpectedEndOfInput)
    } else {
        let magic = spec_u32_from_le_bytes(bytes.subrange(0, 4));
        if magic != FAT_BINARY_MAGIC {
            Err(FatBinaryError::InvalidMagic { expected: FAT_BINARY_MAGIC, got: magic })
        } else {
            let version = spec_u16_from_le_bytes(bytes.subrange(4, 6));
            if version != 1 {
                Err(FatBinaryError::InvalidVersion { expected: 1, got: version })
            } else {
                let header_size = spec_u16_from_le_bytes(bytes.subrange(6, 8));
                if header_size != 16 {
                    Err(FatBinaryError::InvalidHeaderSize { expected: 16, got: header_size })
                } else {
                    let size = spec_u64_from_le_bytes(bytes.subrange(8, 16));
                    parse_entries(bytes, 16, size as int, Seq::empty())
                }
            }
        }
    }
}

} // verus!
