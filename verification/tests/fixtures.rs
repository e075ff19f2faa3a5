//! Byte-image fixtures laid out as NVIDIA tooling emits them: two-entry
//! containers with an ELF cubin first and a compressed PTX entry second.

use fatbinary::FatBinary;
use fatbinary::FatBinaryError;

fn push_u16(v: &mut Vec<u8>, x: u16) {
    v.extend_from_slice(&x.to_le_bytes());
}

fn push_u32(v: &mut Vec<u8>, x: u32) {
    v.extend_from_slice(&x.to_le_bytes());
}

fn push_u64(v: &mut Vec<u8>, x: u64) {
    v.extend_from_slice(&x.to_le_bytes());
}

#[allow(clippy::too_many_arguments)]
fn entry_image(
    kind: u16,
    arch: u32,
    major: u16,
    minor: u16,
    flags: u64,
    csize: u32,
    dsize: u64,
    ptxas: &[u8],
    ident: &[u8],
    payload: &[u8],
) -> Vec<u8> {
    let p = ptxas.len() as u32;
    let i = ident.len() as u32;
    let mut out = Vec::new();
    push_u16(&mut out, kind);
    push_u16(&mut out, 0x0101);
    push_u32(&mut out, 72 + p + i);
    push_u64(&mut out, payload.len() as u64);
    push_u32(&mut out, csize);
    push_u32(&mut out, 0x40);
    push_u16(&mut out, minor);
    push_u16(&mut out, major);
    push_u32(&mut out, arch);
    push_u32(&mut out, if i > 0 { 72 + p } else { 0 });
    push_u32(&mut out, i);
    push_u64(&mut out, flags);
    push_u64(&mut out, 0);
    push_u64(&mut out, dsize);
    push_u32(&mut out, if p > 0 { 72 } else { 0 });
    push_u32(&mut out, p);
    out.extend_from_slice(ptxas);
    out.extend_from_slice(ident);
    out.extend_from_slice(payload);
    out
}

fn container_image(entries: &[Vec<u8>]) -> Vec<u8> {
    let total: u64 = entries.iter().map(|e| e.len() as u64).sum();
    let mut out = Vec::new();
    push_u32(&mut out, 0xBA55ED50);
    push_u16(&mut out, 1);
    push_u16(&mut out, 16);
    push_u64(&mut out, total);
    for e in entries {
        out.extend_from_slice(e);
    }
    out
}

const PTX_TEXT: &[u8] = b".version 6.4\n.target sm_70\n.address_size 64\n";

/// The PTX text above as a single literal-only token stream.
fn compressed_ptx() -> Vec<u8> {
    let mut c = vec![0xf0, (PTX_TEXT.len() - 15) as u8];
    c.extend_from_slice(PTX_TEXT);
    c
}

fn axpy_image(extra_flags: u64, ptxas: &[u8]) -> Vec<u8> {
    let elf_payload = b"\x7f\x45\x4c\x46axpy-cubin".to_vec();
    let e0 = entry_image(
        2,
        70,
        7,
        0,
        0x15 | extra_flags,
        0,
        0,
        &[],
        &[],
        &elf_payload,
    );
    let compressed = compressed_ptx();
    let e1 = entry_image(
        1,
        70,
        7,
        0,
        0x2015 | extra_flags,
        compressed.len() as u32,
        PTX_TEXT.len() as u64,
        ptxas,
        b"axpy.ptx",
        &compressed,
    );
    container_image(&[e0, e1])
}

#[test]
fn read_axpy_default() {
    let fatbin = FatBinary::read(&axpy_image(0, &[])).unwrap();

    // has two entries
    let entries = fatbin.entries();
    assert_eq!(entries.len(), 2);

    // first is elf
    assert!(entries[0].contains_elf());
    assert_eq!(entries[0].get_sm_arch(), 70);

    // second is ptx
    assert!(!entries[1].contains_elf());
    assert_eq!(entries[1].get_sm_arch(), 70);

    // check if valid ptx
    let ptx_code = String::from_utf8(entries[1].get_decompressed_payload()).unwrap();
    assert!(ptx_code.contains(".target sm_70"));
}

#[test]
fn read_axpy_debug() {
    let fatbin = FatBinary::read(&axpy_image(0x2, &[])).unwrap();

    let entries = fatbin.entries();

    // first is elf
    assert!(entries[0].has_debug_info());

    // second is ptx
    assert!(entries[1].has_debug_info());
}

#[test]
fn read_axpy_ptxas_options() {
    let fatbin = FatBinary::read(&axpy_image(0, b"-O3 ")).unwrap();

    let entries = fatbin.entries();

    // second is ptx
    assert_eq!(entries[1].get_ptxas_options().unwrap().trim(), "-O3");
}

#[test]
fn decompressed_length_matches_declared() {
    let fatbin = FatBinary::read(&axpy_image(0, &[])).unwrap();
    let e = &fatbin.entries()[1];
    assert!(e.is_compressed());
    let declared = e.get_header().decompressed_size;
    assert_eq!(e.get_decompressed_payload().len() as u64, declared);
}

#[test]
fn decompress_in_place_is_idempotent() {
    let mut fatbin = FatBinary::read(&axpy_image(0, &[])).unwrap();
    let e = &mut fatbin.entries_mut()[1];
    assert!(e.is_compressed());
    let declared = e.get_header().decompressed_size;

    e.decompress();
    assert!(!e.is_compressed());
    assert_eq!(e.get_header().size, declared);
    assert_eq!(e.get_header().compressed_size, 0);
    assert_eq!(e.get_header().decompressed_size, 0);
    assert_eq!(e.get_payload(), PTX_TEXT);
    let header_once = *e.get_header();

    e.decompress();
    assert_eq!(*e.get_header(), header_once);
    assert_eq!(e.get_payload(), PTX_TEXT);
}

#[test]
fn decompress_on_plain_entry_is_a_no_op() {
    let mut fatbin = FatBinary::read(&axpy_image(0, &[])).unwrap();
    let e = &mut fatbin.entries_mut()[0];
    assert!(!e.is_compressed());
    let header_before = *e.get_header();
    e.decompress();
    assert_eq!(*e.get_header(), header_before);
    assert_eq!(e.get_payload(), b"\x7f\x45\x4c\x46axpy-cubin");
}

#[test]
fn reemitting_parsed_image_reproduces_bytes() {
    let image = axpy_image(0, b"-O3 ");
    let fatbin = FatBinary::read(&image).unwrap();
    assert_eq!(fatbin.write(), image);
}

#[test]
fn nonzero_options_offset_other_than_0x40_is_rejected() {
    let mut image = axpy_image(0, &[]);
    // patch the first entry's options_offset (entry offset 20) to 0x20
    image[36..40].copy_from_slice(&0x20u32.to_le_bytes());
    let err = FatBinary::read(&image).unwrap_err();
    assert_eq!(
        err,
        FatBinaryError::InvalidOffset {
            expected: 0x40,
            got: 0x20
        }
    );
}

#[test]
fn invalid_utf8_identifier_is_rejected() {
    let e = entry_image(1, 70, 0, 0, 0x11, 0, 0, &[], &[0xff, 0xfe], b"x");
    let image = container_image(&[e]);
    let err = FatBinary::read(&image).unwrap_err();
    assert_eq!(err, FatBinaryError::InvalidUtf8);
}

#[test]
fn trailing_region_pieces_in_any_order() {
    // identifier bytes placed before the ptxas-option bytes inside the
    // header region, offsets pointing accordingly
    let ident = b"swapped.ptx";
    let ptxas = b"-O1";
    let payload = b"body";
    let hs = 72 + ident.len() as u32 + ptxas.len() as u32;
    let mut e = Vec::new();
    push_u16(&mut e, 1);
    push_u16(&mut e, 0x0101);
    push_u32(&mut e, hs);
    push_u64(&mut e, payload.len() as u64);
    push_u32(&mut e, 0);
    push_u32(&mut e, 0x40);
    push_u16(&mut e, 0);
    push_u16(&mut e, 0);
    push_u32(&mut e, 70);
    push_u32(&mut e, 72); // identifier first
    push_u32(&mut e, ident.len() as u32);
    push_u64(&mut e, 0x11);
    push_u64(&mut e, 0);
    push_u64(&mut e, 0);
    push_u32(&mut e, 72 + ident.len() as u32); // ptxas bytes after it
    push_u32(&mut e, ptxas.len() as u32);
    e.extend_from_slice(ident);
    e.extend_from_slice(ptxas);
    e.extend_from_slice(payload);
    let image = container_image(&[e]);

    let fatbin = FatBinary::read(&image).unwrap();
    let entry = &fatbin.entries()[0];
    assert_eq!(entry.get_identifier().unwrap(), "swapped.ptx");
    assert_eq!(entry.get_ptxas_options().unwrap(), "-O1");
    assert_eq!(entry.get_payload(), payload);
}

#[test]
fn elf_entry_with_zero_options_offset_reads_and_recanonicalizes() {
    // pre-existing files sometimes carry options_offset = 0 and a bare
    // 64-byte header for ELF entries
    let payload = b"\x7f\x45\x4c\x46cubin";
    let mut e = Vec::new();
    push_u16(&mut e, 2);
    push_u16(&mut e, 0x0101);
    push_u32(&mut e, 64);
    push_u64(&mut e, payload.len() as u64);
    push_u32(&mut e, 0);
    push_u32(&mut e, 0); // no options descriptor at all
    push_u16(&mut e, 0);
    push_u16(&mut e, 7);
    push_u32(&mut e, 70);
    push_u32(&mut e, 0);
    push_u32(&mut e, 0);
    push_u64(&mut e, 0x15);
    push_u64(&mut e, 0);
    push_u64(&mut e, 0);
    e.extend_from_slice(payload);
    let image = container_image(&[e]);

    let fatbin = FatBinary::read(&image).unwrap();
    let entry = &fatbin.entries()[0];
    assert!(entry.contains_elf());
    assert_eq!(entry.get_header().header_size, 64);
    assert_eq!(entry.get_payload(), payload);

    // re-emission uses the fixed output layout: the header region grows to
    // 72 bytes, but reading back preserves the entry's substance
    let rewritten = fatbin.write();
    let back = FatBinary::read(&rewritten).unwrap();
    let entry = &back.entries()[0];
    assert_eq!(entry.get_header().header_size, 72);
    assert_eq!(entry.get_header().options_offset, 0x40);
    assert!(entry.contains_elf());
    assert_eq!(entry.get_sm_arch(), 70);
    assert_eq!(entry.get_version_major(), 7);
    assert_eq!(entry.get_payload(), payload);
}

#[test]
fn declared_sizes_overshooting_container_size_are_rejected() {
    let e = entry_image(1, 70, 0, 0, 0x11, 0, 0, &[], &[], b"abc");
    let mut image = container_image(&[e]);
    // shrink the declared container size below what the entry consumes
    image[8..16].copy_from_slice(&40u64.to_le_bytes());
    let err = FatBinary::read(&image).unwrap_err();
    assert_eq!(err, FatBinaryError::UnexpectedEndOfInput);
}
