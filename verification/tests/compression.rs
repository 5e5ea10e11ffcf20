use toolsc3k::dbpf::DBPFCompression;
use toolsc3k::error::Error;
use toolsc3k::refpack::RefPackCompression;

#[test]
fn refpack_round_trip_edge_sizes() {
    for len in [0usize, 3, 4, 111, 112, 113, 225] {
        let data: Vec<u8> = (0..len).map(|i| (i * 7 % 256) as u8).collect();
        let compressed = RefPackCompression::compress(&data).unwrap();
        let decoded = RefPackCompression::uncompress(&compressed).unwrap();
        assert_eq!(decoded, data, "round trip failed for length {}", len);
    }
}

#[test]
fn refpack_encode_exact_bytes() {
    let compressed = RefPackCompression::compress(&[1, 2, 3, 4, 5]).unwrap();
    // magic, 24-bit length, one four-byte literal run, stop carrying one byte
    assert_eq!(compressed, vec![0x10, 0xFB, 0x00, 0x00, 0x05, 0xE0, 1, 2, 3, 4, 0xFD, 5]);
}

#[test]
fn refpack_overlapping_copy() {
    // One literal byte `X`, then a copy with distance 1 and length 5: the
    // byte replicates itself five times.
    let stream = [0x10, 0xFB, 0x00, 0x00, 0x06, 0x09, 0x00, b'X'];
    let decoded = RefPackCompression::uncompress(&stream).unwrap();
    assert_eq!(decoded, b"XXXXXX");
}

#[test]
fn refpack_length_mismatch() {
    // The header declares ten bytes; the one literal run produces eight.
    let stream = [0x10, 0xFB, 0x00, 0x00, 0x0A, 0xE1, 1, 2, 3, 4, 5, 6, 7, 8];
    let err = RefPackCompression::uncompress(&stream).unwrap_err();
    assert_eq!(err, Error::LengthMismatch { got: 8, want: 10 });
}

#[test]
fn refpack_copy_out_of_bounds() {
    // The first instruction copies from distance 1 while the output is empty.
    let stream = [0x10, 0xFB, 0x00, 0x00, 0x00, 0x08, 0x00];
    let err = RefPackCompression::uncompress(&stream).unwrap_err();
    assert_eq!(err, Error::CopySourceOutOfBounds { have: 0, want: 1 });
}

#[test]
fn refpack_bad_magic() {
    let stream = [0xFB, 0x10, 0x00, 0x00, 0x00];
    assert_eq!(RefPackCompression::uncompress(&stream).unwrap_err(), Error::MalformedHeader);
}

#[test]
fn refpack_truncated() {
    assert_eq!(RefPackCompression::uncompress(&[0x10]).unwrap_err(), Error::TruncatedInput);
    assert_eq!(
        RefPackCompression::uncompress(&[0x10, 0xFB, 0x00]).unwrap_err(),
        Error::TruncatedInput
    );
    // A literal run whose bytes break off before the declared count.
    let stream = [0x10, 0xFB, 0x00, 0x00, 0x08, 0xE1, 1, 2, 3];
    assert_eq!(RefPackCompression::uncompress(&stream).unwrap_err(), Error::TruncatedInput);
}

#[test]
fn dbpf_parse_literal() {
    // 32-bit length 14, magic 0xFB10 little-endian, 24-bit output length 4,
    // then one literal run of four bytes.
    let data = [
        0x0E, 0x00, 0x00, 0x00, 0x10, 0xFB, 0x00, 0x00, 0x04, 0xE0, b'A', b'B', b'C', b'D',
    ];
    let parsed = DBPFCompression::parse(&data).unwrap();
    assert_eq!(parsed.uncompressed_len, 4);
    assert_eq!(parsed.instructions.len(), 1);
    assert_eq!(parsed.instructions[0].append_offset, 10);
    assert_eq!(parsed.instructions[0].append_len, 4);
    assert_eq!(parsed.instructions[0].decoded_copy_len, 0);
    assert!(parsed.well_formed());
    assert_eq!(parsed.uncompress().unwrap(), b"ABCD");
}

#[test]
fn dbpf_uncompress_overlapping_copy() {
    // A literal run `ABCD`, one more literal `E`, then a copy whose source
    // overlaps the bytes it appends.
    let data = [
        0x11, 0x00, 0x00, 0x00, 0x10, 0xFB, 0x00, 0x00, 0x0A, 0xE0, b'A', b'B', b'C', b'D',
        0x09, 0x00, b'E',
    ];
    let parsed = DBPFCompression::parse(&data).unwrap();
    assert_eq!(parsed.instructions.len(), 2);
    assert!(parsed.well_formed());
    assert_eq!(parsed.uncompress().unwrap(), b"ABCDEDEDED");
}

#[test]
fn dbpf_bad_magic() {
    let data = [0x06, 0x00, 0x00, 0x00, 0xFB, 0x10];
    assert_eq!(DBPFCompression::parse(&data).unwrap_err(), Error::MalformedHeader);
}

#[test]
fn dbpf_declared_length_too_large() {
    let data = [0xFF, 0x00, 0x00, 0x00, 0x10, 0xFB, 0x00, 0x00, 0x00];
    assert_eq!(DBPFCompression::parse(&data).unwrap_err(), Error::TruncatedInput);
}
