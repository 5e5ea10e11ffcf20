use toolsc3k::error::Error;
use toolsc3k::pak::{PAKFile, PAKRecord};

fn data_0_struct() -> PAKFile {
    PAKFile {
        records: vec![
            PAKRecord {
                name: "Hello there".into(),
                lines: vec!["General Kenobi!".into()],
            },
            PAKRecord { name: "Rewrite it in Rust".into(), lines: vec![] },
            PAKRecord {
                name: "se tonight".into(),
                lines: vec![
                    "party rockers in the hou".into(),
                    "everybody just ha".into(),
                    "ve a good time".into(),
                ],
            },
        ],
    }
}

const DATA_0: &[u8] = b"\
    \x03\x00\x00\x00\
        \x0B\x00\x00\x00\
            Hello there\
        \x43\x00\x00\x00\
        \
        \x12\x00\x00\x00\
            Rewrite it in Rust\
        \x5A\x00\x00\x00\
        \
        \x0A\x00\x00\x00\
            se tonight\
        \x5E\x00\x00\x00\
    \
    \x01\x00\x00\x00\
        \x0F\x00\x00\x00\
            General Kenobi!\
    \
    \x00\x00\x00\x00\
    \
    \x03\x00\x00\x00\
        \x18\x00\x00\x00\
            party rockers in the hou\
        \x11\x00\x00\x00\
            everybody just ha\
        \x0E\x00\x00\x00\
            ve a good time\
";

#[test]
fn parse() {
    assert_eq!(PAKFile::parse(DATA_0).unwrap(), data_0_struct());
}

#[test]
fn as_single_string() {
    let file = data_0_struct();
    assert_eq!(file.records[0].as_single_string(), "General Kenobi!");
    assert_eq!(file.records[1].as_single_string(), "");
    assert_eq!(
        file.records[2].as_single_string(),
        "party rockers in the hou\neverybody just ha\n\
            ve a good time"
    );
}

#[test]
fn pak_offset_out_of_bounds() {
    // One record whose line-table offset points past the buffer's end.
    let data = [
        0x01, 0x00, 0x00, 0x00, // one record
        0x01, 0x00, 0x00, 0x00, b'a', // name "a"
        0xFF, 0x00, 0x00, 0x00, // offset 255, far out of bounds
    ];
    let err = PAKFile::parse(&data).unwrap_err();
    assert_eq!(err, Error::OffsetOutOfBounds { offset: 0xFF, max: 12 });
}

#[test]
fn pak_non_ascii_replacement() {
    // An invalid UTF-8 byte in a name comes back as the replacement
    // character, not as the raw byte.
    let data = [
        0x01, 0x00, 0x00, 0x00, // one record
        0x01, 0x00, 0x00, 0x00, 0xFF, // name: one invalid byte
        0x0D, 0x00, 0x00, 0x00, // offset 13
        0x00, 0x00, 0x00, 0x00, // no lines
    ];
    let parsed = PAKFile::parse(&data).unwrap();
    assert_eq!(parsed.records.len(), 1);
    assert_eq!(parsed.records[0].name, "\u{FFFD}");
    assert!(parsed.records[0].lines.is_empty());
}
