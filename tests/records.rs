use ffd::record::{read_u16, read_u32, read_u64};
use ffd::stream::{USN_REASON_CLOSE, USN_REASON_FILE_CREATE};
use ffd::UsnRecord;

/// Lays out a version 2 record with the name right after the 60-byte header.
fn layout(frn: u64, parent: u64, name: &str, reason: u32) -> Vec<u8> {
    let units: Vec<u16> = name.encode_utf16().collect();
    let length = 60 + 2 * units.len();
    let mut b = vec![0u8; length];
    b[0..4].copy_from_slice(&(length as u32).to_le_bytes());
    b[4..6].copy_from_slice(&2u16.to_le_bytes());
    b[8..16].copy_from_slice(&frn.to_le_bytes());
    b[16..24].copy_from_slice(&parent.to_le_bytes());
    b[40..44].copy_from_slice(&reason.to_le_bytes());
    b[56..58].copy_from_slice(&((2 * units.len()) as u16).to_le_bytes());
    b[58..60].copy_from_slice(&60u16.to_le_bytes());
    for (i, u) in units.iter().enumerate() {
        b[60 + 2 * i..62 + 2 * i].copy_from_slice(&u.to_le_bytes());
    }
    b
}

#[test]
fn reads_little_endian_integers() {
    let b = [0x01u8, 0x02, 0x03, 0x04, 0x05, 0x06, 0x07, 0x08];
    assert_eq!(read_u16(&b, 0), 0x0201);
    assert_eq!(read_u16(&b, 6), 0x0807);
    assert_eq!(read_u32(&b, 1), 0x0504_0302);
    assert_eq!(read_u64(&b, 0), 0x0807_0605_0403_0201);
}

#[test]
fn decodes_one_record() {
    let b = layout(42, 5, "notes.txt", USN_REASON_CLOSE | USN_REASON_FILE_CREATE);
    let (rec, len) = UsnRecord::from_bytes(&b, 0).unwrap();
    assert_eq!(rec.frn, 42);
    assert_eq!(rec.parent_frn, 5);
    assert_eq!(rec.filename, "notes.txt");
    assert_eq!(rec.reason, 0x8000_0100);
    assert_eq!(len as usize, b.len());
}

#[test]
fn decodes_wide_name() {
    let b = layout(7, 5, "résumé 日本", 0);
    let (rec, _) = UsnRecord::from_bytes(&b, 0).unwrap();
    assert_eq!(rec.filename, "résumé 日本");
}

#[test]
fn lone_surrogate_becomes_replacement_character() {
    let mut b = layout(7, 5, "ab", 0);
    b[60..62].copy_from_slice(&0xD800u16.to_le_bytes());
    let (rec, _) = UsnRecord::from_bytes(&b, 0).unwrap();
    assert_eq!(rec.filename, "\u{FFFD}b");
}

#[test]
fn three_records_round_trip() {
    let inputs = [
        (10u64, 5u64, "a.txt", 0x8000_0100u32),
        (11, 10, "Documents", 0x8000_0200),
        (12, 11, "Report.DOCX", 0x8000_2000),
    ];
    let mut buf = Vec::new();
    for (frn, parent, name, reason) in inputs.iter() {
        buf.extend(layout(*frn, *parent, name, *reason));
    }
    let mut offset = 0usize;
    let mut out = Vec::new();
    while offset < buf.len() {
        let (rec, len) = UsnRecord::from_bytes(&buf, offset).unwrap();
        out.push(rec);
        offset += len as usize;
    }
    assert_eq!(offset, buf.len());
    assert_eq!(out.len(), 3);
    for (rec, (frn, parent, name, reason)) in out.iter().zip(inputs.iter()) {
        assert_eq!(rec.frn, *frn);
        assert_eq!(rec.parent_frn, *parent);
        assert_eq!(rec.filename, *name);
        assert_eq!(rec.reason, *reason);
    }
}

#[test]
fn record_past_buffer_end_is_rejected() {
    let b = layout(1, 5, "name", 0);
    assert!(UsnRecord::from_bytes(&b[..b.len() - 1], 0).is_none());
}

#[test]
fn header_shorter_than_sixty_bytes_is_rejected() {
    let b = layout(1, 5, "", 0);
    assert_eq!(b.len(), 60);
    assert!(UsnRecord::from_bytes(&b[..59], 0).is_none());
    assert!(UsnRecord::from_bytes(&b, 0).is_some());
}

#[test]
fn declared_length_below_header_is_rejected() {
    let mut b = layout(1, 5, "name", 0);
    b[0..4].copy_from_slice(&59u32.to_le_bytes());
    assert!(UsnRecord::from_bytes(&b, 0).is_none());
}

#[test]
fn name_past_record_end_is_rejected() {
    let mut b = layout(1, 5, "name", 0);
    b[56..58].copy_from_slice(&10u16.to_le_bytes());
    assert!(UsnRecord::from_bytes(&b, 0).is_none());
}

#[test]
fn offset_past_buffer_is_rejected() {
    let b = layout(1, 5, "name", 0);
    assert!(UsnRecord::from_bytes(&b, b.len() + 1).is_none());
}
