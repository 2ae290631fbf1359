use ffd::{Fetched, IterFileRecord, IterUsnRecord, Step, StreamError};

fn layout(frn: u64, parent: u64, name: &str, reason: u32) -> Vec<u8> {
    let units: Vec<u16> = name.encode_utf16().collect();
    let length = 60 + 2 * units.len();
    let mut b = vec![0u8; length];
    b[0..4].copy_from_slice(&(length as u32).to_le_bytes());
    b[4..6].copy_from_slice(&2u16.to_le_bytes());
    b[8..16].copy_from_slice(&frn.to_le_bytes());
    b[16..24].copy_from_slice(&parent.to_le_bytes());
    b[40..44].copy_from_slice(&reason.to_le_bytes());
    b[56..58].copy_from_slice(&((2 * units.len()) as u16).to_le_bytes());
    b[58..60].copy_from_slice(&60u16.to_le_bytes());
    for (i, u) in units.iter().enumerate() {
        b[60 + 2 * i..62 + 2 * i].copy_from_slice(&u.to_le_bytes());
    }
    b
}

fn batch(cursor: u64, records: &[Vec<u8>]) -> Vec<u8> {
    let mut b = cursor.to_le_bytes().to_vec();
    for r in records {
        b.extend_from_slice(r);
    }
    b
}

/// `ERROR_HANDLE_EOF` as a result code.
const EOF_CODE: i32 = 0x8007_0026u32 as i32;

fn record_of(step: Result<Step, StreamError>) -> ffd::UsnRecord {
    match step {
        Ok(Step::Record(r)) => r,
        other => panic!("expected a record, got {:?}", other),
    }
}

#[test]
fn full_scan_yields_batches_then_ends() {
    let mut it = IterFileRecord::new(4096);
    assert_eq!(it.buffer_size(), 4096);
    let req = it.request();
    assert_eq!(req.start_file_reference_number, 0);
    assert_eq!(req.low_usn, 0);
    assert_eq!(req.high_usn, i64::MAX);
    assert_eq!((req.min_major_version, req.max_major_version), (2, 2));
    assert!(matches!(it.next(), Ok(Step::Fetch)));

    let b = batch(77, &[layout(10, 5, "a", 0), layout(11, 5, "bb", 0)]);
    let first = record_of(it.refill(Fetched::Filled(b)));
    assert_eq!((first.frn, first.filename.as_str()), (10, "a"));
    assert_eq!(it.request().start_file_reference_number, 77);
    let second = record_of(it.next());
    assert_eq!((second.frn, second.filename.as_str()), (11, "bb"));
    assert!(matches!(it.next(), Ok(Step::Fetch)));

    assert!(matches!(it.refill(Fetched::Failed(EOF_CODE)), Ok(Step::Done)));
}

#[test]
fn full_scan_device_error_is_reported() {
    let mut it = IterFileRecord::new(4096);
    let code = 0x8007_0005u32 as i32;
    assert_eq!(
        it.refill(Fetched::Failed(code)).unwrap_err(),
        StreamError::DeviceIo(code)
    );
}

#[test]
fn batch_shorter_than_cursor_ends_scan() {
    let mut it = IterFileRecord::new(4096);
    assert!(matches!(it.refill(Fetched::Filled(vec![1, 2, 3])), Ok(Step::Done)));
    assert_eq!(it.request().start_file_reference_number, 0);
}

#[test]
fn cursor_only_batch_takes_cursor_and_is_buffer_too_small() {
    let mut it = IterFileRecord::new(4096);
    assert_eq!(
        it.refill(Fetched::Filled(batch(9, &[]))).unwrap_err(),
        StreamError::BufferTooSmall(4096)
    );
    assert_eq!(it.request().start_file_reference_number, 9);
}

#[test]
fn batch_without_room_for_a_record_is_buffer_too_small() {
    let mut it = IterFileRecord::new(64);
    let rec = layout(10, 5, "a long file name", 0);
    let mut b = batch(77, &[]);
    b.extend_from_slice(&rec[..56]);
    assert_eq!(it.refill(Fetched::Filled(b)).unwrap_err(), StreamError::BufferTooSmall(64));

    let mut it = IterUsnRecord::with_start(3, 100, 64);
    let mut b = batch(200, &[]);
    b.extend_from_slice(&rec[..70]);
    assert_eq!(it.refill(Fetched::Filled(b)).unwrap_err(), StreamError::BufferTooSmall(64));
}

#[test]
fn damaged_second_record_is_malformed() {
    let mut it = IterFileRecord::new(4096);
    let rec = layout(11, 5, "bb", 0);
    let b = batch(77, &[layout(10, 5, "a", 0), rec[..30].to_vec()]);
    record_of(it.refill(Fetched::Filled(b)));
    assert_eq!(it.next().unwrap_err(), StreamError::MalformedRecord);
}

#[test]
fn journal_request_asks_for_closed_changes() {
    let it = IterUsnRecord::with_start(9, 1234, 4096);
    let req = it.request();
    assert_eq!(req.start_usn, 1234);
    assert_eq!(req.reason_mask, 0x8000_2300);
    assert_eq!(req.return_only_on_close, 1);
    assert_eq!(req.timeout, 0);
    assert_eq!(req.bytes_to_wait_for, 0);
    assert_eq!(req.usn_journal_id, 9);
    assert_eq!(it.next_usn(), 1234);
}

#[test]
fn journal_ends_when_cursor_does_not_move() {
    let mut it = IterUsnRecord::with_start(9, 100, 4096);
    assert!(matches!(it.next(), Ok(Step::Fetch)));
    assert!(matches!(it.refill(Fetched::Filled(batch(100, &[]))), Ok(Step::Done)));
    assert_eq!(it.next_usn(), 100);
}

#[test]
fn journal_cursor_only_batch_takes_cursor_and_is_buffer_too_small() {
    let mut it = IterUsnRecord::with_start(9, 100, 4096);
    assert_eq!(
        it.refill(Fetched::Filled(batch(200, &[]))).unwrap_err(),
        StreamError::BufferTooSmall(4096)
    );
    assert_eq!(it.next_usn(), 200);
    assert_eq!(it.request().start_usn, 200);
}

#[test]
fn journal_yields_records_and_keeps_last_cursor() {
    let mut it = IterUsnRecord::with_start(9, 100, 4096);
    let b = batch(300, &[layout(10, 5, "new.txt", 0x8000_0100)]);
    let rec = record_of(it.refill(Fetched::Filled(b)));
    assert_eq!(rec.filename, "new.txt");
    assert_eq!(rec.reason, 0x8000_0100);
    assert!(matches!(it.next(), Ok(Step::Fetch)));
    assert!(matches!(it.refill(Fetched::Filled(batch(300, &[]))), Ok(Step::Done)));
    assert_eq!(it.next_usn(), 300);
}

#[test]
fn journal_end_of_data_ends_and_other_failures_are_errors() {
    let mut it = IterUsnRecord::with_start(9, 100, 4096);
    assert!(matches!(it.refill(Fetched::Failed(EOF_CODE)), Ok(Step::Done)));
    let code = 0x8007_0005u32 as i32;
    let mut it = IterUsnRecord::with_start(9, 100, 4096);
    assert_eq!(it.refill(Fetched::Failed(code)).unwrap_err(), StreamError::DeviceIo(code));
    let mut it = IterUsnRecord::with_start(9, 100, 4096);
    assert!(matches!(it.refill(Fetched::Filled(vec![0; 7])), Ok(Step::Done)));
}
