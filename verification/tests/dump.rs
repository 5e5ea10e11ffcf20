use toolsc3k::hexdump::dump_hex;

const HEADER: &str = "                 00 01 02 03 04 05 06 07  08 09 0A 0B 0C 0D 0E 0F\n";

#[test]
fn dump_hex_empty() {
    assert_eq!(dump_hex(&[]), HEADER);
}

#[test]
fn dump_hex_short_row() {
    // Four bytes: one row, cells padded out to fifty columns, the two
    // unprintable bytes shown as dots.
    let expected = format!("{}0000000000000000 {:50}{}\n", HEADER, "41 42 00 7F ", "AB..");
    assert_eq!(dump_hex(&[0x41, 0x42, 0x00, 0x7F]), expected);
}

#[test]
fn dump_hex_two_rows() {
    // Eighteen bytes: a full row with the doubled space after the eighth
    // cell, then a second row for the remainder.
    let data = b"ABCDEFGHIJKLMNOPQR";
    let expected = format!(
        "{}0000000000000000 {:50}{}\n0000000000000010 {:50}{}\n",
        HEADER,
        "41 42 43 44 45 46 47 48  49 4A 4B 4C 4D 4E 4F 50 ",
        "ABCDEFGHIJKLMNOP",
        "51 52 ",
        "QR",
    );
    assert_eq!(dump_hex(data), expected);
}
