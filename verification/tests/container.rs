use toolsc3k::error::Error;
use toolsc3k::ixf::{IXFFile, IXFRecord};

#[test]
#[should_panic]
fn format_invalid_header() {
    let data = [0xDE, 0xAD, 0xBA, 0xBE, 0xFA, 0x11];
    IXFFile::parse(&data, true).unwrap();
}

#[test]
fn format_normal() {
    let data = [
        0xD7, 0x81, 0xC3, 0x80,
        0x12, 0x34, 0x56, 0x78,
        0x9A, 0xBC, 0xDE, 0xF0,
        0x29, 0x99, 0x79, 0x24,
        0x28, 0x00, 0x00, 0x00,
        0x04, 0x00, 0x00, 0x00,
        0x00, 0x00, 0x00, 0x00,
        0x00, 0x00, 0x00, 0x00,
        0x00, 0x00, 0x00, 0x00,
        0x00, 0x00, 0x00, 0x00,
        0xBE, 0xEF, 0xCA, 0xCE,
    ];

    let record = {
        let mut records = IXFFile::parse(&data, false).unwrap().records;
        assert_eq!(records.len(), 1);
        records.pop().unwrap()
    };

    assert_eq!(record.type_id, 0x78563412);
    assert_eq!(record.group_id, 0xF0DEBC9A);
    assert_eq!(record.instance_id, 0x24799929);
    assert_eq!(record.body, &data[0x28..]);
}

#[test]
#[should_panic]
fn format_bad_record() {
    let data = [
        0xD7, 0x81, 0xC3, 0x80,
        0x12, 0x34, 0x56, 0x78,
        0x9A, 0xBC, 0xDE, 0xF0,
        0x29, 0x99, 0x79, 0x24,
        0x28, 0xFF, 0x00, 0x00,
        0x04, 0x00, 0x00, 0x00,
        0x00, 0x00, 0x00, 0x00,
        0x00, 0x00, 0x00, 0x00,
        0x00, 0x00, 0x00, 0x00,
        0x00, 0x00, 0x00, 0x00,
    ];

    IXFFile::parse(&data, false).unwrap();
}

#[test]
fn format_bad_record_ignore() {
    let data = [
        0xD7, 0x81, 0xC3, 0x80,
        0x12, 0x34, 0x56, 0x78,
        0x9A, 0xBC, 0xDE, 0xF0,
        0x29, 0x99, 0x79, 0x24,
        0x28, 0xFF, 0x00, 0x00,
        0x04, 0x00, 0x00, 0x00,
        0x00, 0x00, 0x00, 0x00,
        0x00, 0x00, 0x00, 0x00,
        0x00, 0x00, 0x00, 0x00,
        0x00, 0x00, 0x00, 0x00,
        0xBE, 0xEF, 0xCA, 0xCE,
    ];

    let records = IXFFile::parse(&data, true).unwrap().records;
    assert_eq!(records.len(), 0);
}

#[test]
#[should_panic]
fn ixf_invalid_header() {
    let data = [0xDE, 0xAD, 0xBA, 0xBE, 0xFA, 0x11];
    IXFFile::parse(&data, true).unwrap();
}

#[test]
fn ixf_normal() {
    let data = [
        0xD7, 0x81, 0xC3, 0x80,
        0x12, 0x34, 0x56, 0x78,
        0x9A, 0xBC, 0xDE, 0xF0,
        0x29, 0x99, 0x79, 0x24,
        0x28, 0x00, 0x00, 0x00,
        0x04, 0x00, 0x00, 0x00,
        0x00, 0x00, 0x00, 0x00,
        0x00, 0x00, 0x00, 0x00,
        0x00, 0x00, 0x00, 0x00,
        0x00, 0x00, 0x00, 0x00,
        0xBE, 0xEF, 0xCA, 0xCE,
    ];

    let record = {
        let mut records = IXFFile::parse(&data, false).unwrap().records;
        assert_eq!(records.len(), 1);
        records.pop().unwrap()
    };

    assert_eq!(record.type_id, 0x78563412);
    assert_eq!(record.group_id, 0xF0DEBC9A);
    assert_eq!(record.instance_id, 0x24799929);
    assert_eq!(record.body, &data[0x28..]);
}

#[test]
#[should_panic]
fn ixf_bad_record() {
    let data = [
        0xD7, 0x81, 0xC3, 0x80,
        0x12, 0x34, 0x56, 0x78,
        0x9A, 0xBC, 0xDE, 0xF0,
        0x29, 0x99, 0x79, 0x24,
        0x28, 0xFF, 0x00, 0x00,
        0x04, 0x00, 0x00, 0x00,
        0x00, 0x00, 0x00, 0x00,
        0x00, 0x00, 0x00, 0x00,
        0x00, 0x00, 0x00, 0x00,
        0x00, 0x00, 0x00, 0x00,
    ];

    IXFFile::parse(&data, false).unwrap();
}

#[test]
fn ixf_bad_record_ignore() {
    let data = [
        0xD7, 0x81, 0xC3, 0x80,
        0x12, 0x34, 0x56, 0x78,
        0x9A, 0xBC, 0xDE, 0xF0,
        0x29, 0x99, 0x79, 0x24,
        0x28, 0xFF, 0x00, 0x00,
        0x04, 0x00, 0x00, 0x00,
        0x00, 0x00, 0x00, 0x00,
        0x00, 0x00, 0x00, 0x00,
        0x00, 0x00, 0x00, 0x00,
        0x00, 0x00, 0x00, 0x00,
        0xBE, 0xEF, 0xCA, 0xCE,
    ];

    let records = IXFFile::parse(&data, true).unwrap().records;
    assert_eq!(records.len(), 0);
}

#[test]
fn reencode() {
    let data = [
        0xD7, 0x81, 0xC3, 0x80,
        0x12, 0x34, 0x56, 0x78,
        0x9A, 0xBC, 0xDE, 0xF0,
        0x29, 0x99, 0x79, 0x24,
        0x2C, 0x00, 0x00, 0x00,
        0x04, 0x00, 0x00, 0x00,
        0x00, 0x00, 0x00, 0x00,
        0x00, 0x00, 0x00, 0x00,
        0x00, 0x00, 0x00, 0x00,
        0x00, 0x00, 0x00, 0x00,
        0x00, 0x00, 0x00, 0x00,
        0xBE, 0xEF, 0xCA, 0xCE,
    ];

    let parsed = IXFFile::parse(&data, false).unwrap();

    assert_eq!(parsed.as_vec().unwrap(), data.to_vec());
}

#[test]
fn container_round_trip_two_records() {
    let file = IXFFile {
        records: vec![
            IXFRecord {
                type_id: 0x11111111,
                group_id: 0x22222222,
                instance_id: 0x33333333,
                body: vec![1, 2, 3],
            },
            IXFRecord {
                type_id: 0x44444444,
                group_id: 0x55555555,
                instance_id: 0x66666666,
                body: vec![9, 8, 7, 6, 5],
            },
        ],
    };

    let bytes = file.as_vec().unwrap();
    // magic + two entries + terminator + bodies
    assert_eq!(bytes.len(), 4 + 20 * 3 + 3 + 5);
    let reparsed = IXFFile::parse(&bytes, false).unwrap();
    assert_eq!(reparsed, file);
}

#[test]
fn container_truncated_table() {
    // A valid magic whose index table breaks off before any terminator.
    let data = [0xD7, 0x81, 0xC3, 0x80, 0x01, 0x02];
    assert_eq!(IXFFile::parse(&data, false).unwrap_err(), Error::TruncatedInput);
    assert_eq!(IXFFile::parse(&data, true).unwrap_err(), Error::TruncatedInput);
}

#[test]
fn container_bad_record_error_kind() {
    // The same out-of-bounds entry as the panicking tests, checked for the
    // exact structured error in strict mode.
    let data = [
        0xD7, 0x81, 0xC3, 0x80,
        0x12, 0x34, 0x56, 0x78,
        0x9A, 0xBC, 0xDE, 0xF0,
        0x29, 0x99, 0x79, 0x24,
        0x28, 0xFF, 0x00, 0x00,
        0x04, 0x00, 0x00, 0x00,
        0x00, 0x00, 0x00, 0x00,
        0x00, 0x00, 0x00, 0x00,
        0x00, 0x00, 0x00, 0x00,
        0x00, 0x00, 0x00, 0x00,
        0xBE, 0xEF, 0xCA, 0xCE,
    ];
    let err = IXFFile::parse(&data, false).unwrap_err();
    assert_eq!(err, Error::RecordOutOfBounds { offset: 0xFF28, length: 4, max: data.len() - 1 });
}
