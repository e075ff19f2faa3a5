use fatbinary::decompress;

#[test]
fn decompress_literal_only_token_halts_after_literals() {
    // control 0x30: three literals, input exhausted after them
    let out = decompress(&[0x30, b'A', b'B', b'C']).unwrap();
    assert_eq!(out, b"ABC".to_vec());
}

#[test]
fn decompress_empty_input() {
    assert_eq!(decompress(&[]).unwrap(), Vec::<u8>::new());
}

#[test]
fn decompress_match_replicates_window() {
    // control 0x14: one literal, match length 4 + 4 = 8, back offset 1
    let out = decompress(&[0x14, b'X', 0x01, 0x00]).unwrap();
    assert_eq!(out, vec![b'X'; 9]);
}

#[test]
fn decompress_match_back_two() {
    // control 0x22: two literals, match length 6, back offset 2
    let out = decompress(&[0x22, b'A', b'B', 0x02, 0x00]).unwrap();
    assert_eq!(out, b"ABABABAB".to_vec());
}

#[test]
fn decompress_literal_length_extension() {
    // high nibble 0xF: literal length 15 + 5 = 20
    let mut input = vec![0xf0, 0x05];
    let text: Vec<u8> = (0u8..20u8).collect();
    input.extend_from_slice(&text);
    assert_eq!(decompress(&input).unwrap(), text);
}

#[test]
fn decompress_literal_length_extension_with_ff_run() {
    // extension bytes 0xFF 0x02: literal length 15 + 255 + 2 = 272
    let mut input = vec![0xf0, 0xff, 0x02];
    let text: Vec<u8> = (0..272).map(|i| (i % 251) as u8).collect();
    input.extend_from_slice(&text);
    assert_eq!(decompress(&input).unwrap(), text);
}

#[test]
fn decompress_match_length_extension() {
    // low nibble 0xF: match length 19 + 2 = 21, back offset 1
    let out = decompress(&[0x1f, b'A', 0x01, 0x00, 0x02]).unwrap();
    assert_eq!(out, vec![b'A'; 22]);
}

#[test]
fn decompress_malformed_inputs() {
    // one literal declared, none present
    assert!(decompress(&[0x10]).is_none());
    // back offset reaches before the start of the output
    assert!(decompress(&[0x14, b'X', 0x05, 0x00]).is_none());
    // back offset zero
    assert!(decompress(&[0x14, b'X', 0x00, 0x00]).is_none());
    // truncated back offset
    assert!(decompress(&[0x04, 0x01]).is_none());
    // literal extension runs off the input
    assert!(decompress(&[0xf0, 0xff]).is_none());
}
