//! The two buffered record streams: a full enumeration of the volume's
//! entries and a tail of its change journal.
//!
//! Each stream decides; the caller performs the control call that a stream
//! asks for (`Step::Fetch`) and hands back what came of it (`Fetched`).
use vstd::prelude::*;

use crate::record::{
    le_u64, lemma_short_bytes_hold_no_record, record_at, UsnRecord, HEADER_LEN,
};

verus! {

/// Bytes at the start of every batch that hold the next cursor.
pub const CURSOR_LEN: usize = 8;

/// Win32 code that ends a stream: no data is left.
pub const ERROR_HANDLE_EOF: u32 = 38;

/// Reason bit: the entry was created.
pub const USN_REASON_FILE_CREATE: u32 = 0x0000_0100;
/// Reason bit: the entry was deleted.
pub const USN_REASON_FILE_DELETE: u32 = 0x0000_0200;
/// Reason bit: the entry got this new name or parent.
pub const USN_REASON_RENAME_NEW_NAME: u32 = 0x0000_2000;
/// Reason bit: the operation is closed; the other bits are final.
pub const USN_REASON_CLOSE: u32 = 0x8000_0000;

/// Reasons that the journal tail asks for.
pub const JOURNAL_REASON_MASK: u32 = USN_REASON_FILE_CREATE | USN_REASON_FILE_DELETE
    | USN_REASON_RENAME_NEW_NAME | USN_REASON_CLOSE;

/// What came of one control call.
#[derive(Debug)]
pub enum Fetched {
    /// The call succeeded and wrote these bytes.
    Filled(Vec<u8>),
    /// The call failed with this result code.
    Failed(i32),
}

/// Why a stream ended before its data did.
#[derive(Debug, Clone, Copy, PartialEq, Eq, Structural)]
pub enum StreamError {
    /// The control call failed; the code it gave.
    DeviceIo(i32),
    /// A batch could not hold a single record; the buffer size used.
    BufferTooSmall(usize),
    /// The bytes left in a batch are not a record.
    MalformedRecord,
}

/// What a stream wants next.
#[derive(Debug)]
pub enum Step {
    /// A decoded record.
    Record(UsnRecord),
    /// The buffer is used up: perform the stream's request and `refill`.
    Fetch,
    /// The stream is over.
    Done,
}

/// The low 16 bits of a result code name the Win32 error.
pub open spec fn is_end_of_data(code: i32) -> bool {
    (code as u32) & 0xFFFF == ERROR_HANDLE_EOF
}

/// Whether a failed control call only reports that no data is left.
pub fn end_of_data(code: i32) -> (r: bool)
    ensures
        r == is_end_of_data(code),
{
    (code as u32) & 0xFFFF == ERROR_HANDLE_EOF
}

/// The stream is over.
pub open spec fn is_done(r: Result<Step, StreamError>) -> bool {
    match r {
        Ok(Step::Done) => true,
        _ => false,
    }
}

/// The stream asks for a fetch.
pub open spec fn is_fetch(r: Result<Step, StreamError>) -> bool {
    match r {
        Ok(Step::Fetch) => true,
        _ => false,
    }
}

/// Bytes of a batch after its cursor.
pub open spec fn batch_body(b: Seq<u8>) -> Seq<u8> {
    b.subrange(CURSOR_LEN as int, b.len() as int)
}

/// A batch that holds its cursor but fewer bytes behind it than a record
/// header holds no record: `refill` turns it into `BufferTooSmall`, never
/// into a partial record.
pub proof fn lemma_short_batch_holds_no_record(b: Seq<u8>)
    requires
        CURSOR_LEN <= b.len() < CURSOR_LEN + HEADER_LEN,
    ensures
        record_at(batch_body(b)) is None,
{
    lemma_short_bytes_hold_no_record(batch_body(b));
}

/// A buffer of packed records and the position of the next one.
struct IterRecordBuf {
    buf: Vec<u8>,
    pos: usize,
}

impl IterRecordBuf {
    #[verifier::type_invariant]
    closed spec fn inv(self) -> bool {
        self.pos <= self.buf.len()
    }

    closed spec fn pending(self) -> Seq<u8> {
        self.buf@.subrange(self.pos as int, self.buf@.len() as int)
    }

    fn new_uninit() -> (r: IterRecordBuf)
        ensures
            r.pending() == Seq::<u8>::empty(),
    {
        let r = IterRecordBuf { buf: Vec::new(), pos: 0 };
        assert(r.pending() =~= Seq::<u8>::empty());
        r
    }

    /// Takes a refilled batch: returns its leading cursor and keeps the
    /// records behind it.
    fn reload(&mut self, bytes: Vec<u8>) -> (r: u64)
        requires
            CURSOR_LEN <= bytes@.len(),
        ensures
            r == le_u64(bytes@, 0),
            final(self).pending() == batch_body(bytes@),
    {
        let r = crate::record::read_u64(bytes.as_slice(), 0);
        *self = IterRecordBuf { buf: bytes, pos: CURSOR_LEN };
        r
    }

    /// The next record of the batch; `Ok(None)` where the batch is used up.
    fn next_record(&mut self) -> (r: Result<Option<UsnRecord>, StreamError>)
        ensures
            old(self).pending().len() == 0 ==> r == Ok::<Option<UsnRecord>, StreamError>(None)
                && final(self).pending() == old(self).pending(),
            old(self).pending().len() > 0 ==> match record_at(old(self).pending()) {
                Some(raw) => match r {
                    Ok(Some(rec)) => rec.decodes(raw) && final(self).pending() == old(
                        self,
                    ).pending().subrange(raw.length as int, old(self).pending().len() as int),
                    _ => false,
                },
                None => r == Err::<Option<UsnRecord>, StreamError>(StreamError::MalformedRecord),
            },
    {
        proof {
            use_type_invariant(&*self);
        }
        if self.pos == self.buf.len() {
            return Ok(None);
        }
        match UsnRecord::from_bytes(self.buf.as_slice(), self.pos) {
            Some((record, length)) => {
                self.pos = self.pos + length as usize;
                assert(self.pending() =~= old(self).pending().subrange(
                    length as int,
                    old(self).pending().len() as int,
                ));
                Ok(Some(record))
            },
            None => Err(StreamError::MalformedRecord),
        }
    }

    /// The first record of a freshly loaded batch; a batch with no whole
    /// record in it means the buffer is too small.
    fn first(&mut self, buf_size: usize) -> (r: Result<Step, StreamError>)
        ensures
            match record_at(old(self).pending()) {
                Some(raw) => match r {
                    Ok(Step::Record(rec)) => rec.decodes(raw) && final(self).pending() == old(
                        self,
                    ).pending().subrange(raw.length as int, old(self).pending().len() as int),
                    _ => false,
                },
                None => r == Err::<Step, StreamError>(StreamError::BufferTooSmall(buf_size)),
            },
    {
        match self.next_record() {
            Ok(Some(record)) => Ok(Step::Record(record)),
            _ => Err(StreamError::BufferTooSmall(buf_size)),
        }
    }
}

/// Input of an enumeration call (`MFT_ENUM_DATA_V1`).
#[derive(Debug, Clone, Copy, PartialEq, Eq, Structural)]
pub struct MftEnumData {
    pub start_file_reference_number: u64,
    pub low_usn: i64,
    pub high_usn: i64,
    pub min_major_version: u16,
    pub max_major_version: u16,
}

/// Every live entry of a volume, in the order the file system keeps them.
pub struct IterFileRecord {
    in_buf: MftEnumData,
    out_buf: IterRecordBuf,
    buf_size: usize,
}

impl IterFileRecord {
    /// The request that the next fetch must make.
    pub closed spec fn spec_request(&self) -> MftEnumData {
        self.in_buf
    }

    /// Bytes of the current batch not decoded yet.
    pub closed spec fn pending(&self) -> Seq<u8> {
        self.out_buf.pending()
    }

    /// Bytes to fetch per call.
    pub closed spec fn spec_buffer_size(&self) -> usize {
        self.buf_size
    }

    /// A stream that starts at the first entry and fetches `buf_size` bytes at a time.
    pub fn new(buf_size: usize) -> (r: IterFileRecord)
        ensures
            r.spec_request() == (MftEnumData {
                start_file_reference_number: 0,
                low_usn: 0,
                high_usn: i64::MAX,
                min_major_version: 2,
                max_major_version: 2,
            }),
            r.pending() == Seq::<u8>::empty(),
            r.spec_buffer_size() == buf_size,
    {
        IterFileRecord {
            in_buf: MftEnumData {
                start_file_reference_number: 0,
                low_usn: 0,
                high_usn: i64::MAX,
                min_major_version: 2,
                max_major_version: 2,
            },
            out_buf: IterRecordBuf::new_uninit(),
            buf_size,
        }
    }

    /// Input of the next enumeration call.
    pub fn request(&self) -> (r: MftEnumData)
        ensures
            r == self.spec_request(),
    {
        self.in_buf
    }

    /// Bytes to fetch per call.
    pub fn buffer_size(&self) -> (r: usize)
        ensures
            r == self.spec_buffer_size(),
    {
        self.buf_size
    }

    /// The next record of the current batch, or `Step::Fetch` once it is used up.
    pub fn next(&mut self) -> (r: Result<Step, StreamError>)
        ensures
            final(self).spec_request() == old(self).spec_request(),
            final(self).spec_buffer_size() == old(self).spec_buffer_size(),
            old(self).pending().len() == 0 ==> is_fetch(r) && final(self).pending()
                == old(self).pending(),
            old(self).pending().len() > 0 ==> match record_at(old(self).pending()) {
                Some(raw) => match r {
                    Ok(Step::Record(rec)) => rec.decodes(raw) && final(self).pending() == old(
                        self,
                    ).pending().subrange(raw.length as int, old(self).pending().len() as int),
                    _ => false,
                },
                None => r == Err::<Step, StreamError>(StreamError::MalformedRecord),
            },
    {
        match self.out_buf.next_record() {
            Ok(Some(record)) => Ok(Step::Record(record)),
            Ok(None) => Ok(Step::Fetch),
            Err(e) => Err(e),
        }
    }

    /// Takes what the enumeration call gave. End of data, or a batch too
    /// short to hold a cursor, ends the stream; another failure is an error.
    /// Otherwise the batch's cursor becomes the next request's start, and its
    /// first record comes back; where no whole record follows the cursor,
    /// the buffer is too small.
    pub fn refill(&mut self, fetched: Fetched) -> (r: Result<Step, StreamError>)
        ensures
            final(self).spec_buffer_size() == old(self).spec_buffer_size(),
            match fetched {
                Fetched::Failed(code) => {
                    &&& is_end_of_data(code) ==> is_done(r)
                    &&& !is_end_of_data(code) ==> r == Err::<Step, StreamError>(
                        StreamError::DeviceIo(code),
                    )
                    &&& final(self).spec_request() == old(self).spec_request()
                },
                Fetched::Filled(b) => if b.len() < CURSOR_LEN {
                    is_done(r) && final(self).spec_request() == old(self).spec_request()
                } else {
                    let body = batch_body(b@);
                    &&& final(self).spec_request() == (MftEnumData {
                        start_file_reference_number: le_u64(b@, 0),
                        ..old(self).spec_request()
                    })
                    &&& match record_at(body) {
                        Some(raw) => match r {
                            Ok(Step::Record(rec)) => rec.decodes(raw) && final(self).pending()
                                == body.subrange(raw.length as int, body.len() as int),
                            _ => false,
                        },
                        None => r == Err::<Step, StreamError>(
                            StreamError::BufferTooSmall(old(self).spec_buffer_size()),
                        ),
                    }
                },
            },
    {
        match fetched {
            Fetched::Failed(code) => {
                if end_of_data(code) {
                    Ok(Step::Done)
                } else {
                    Err(StreamError::DeviceIo(code))
                }
            },
            Fetched::Filled(bytes) => {
                if bytes.len() < CURSOR_LEN {
                    return Ok(Step::Done);
                }
                let next = self.out_buf.reload(bytes);
                self.in_buf.start_file_reference_number = next;
                self.out_buf.first(self.buf_size)
            },
        }
    }
}

/// Input of a journal read (`READ_USN_JOURNAL_DATA_V0`).
#[derive(Debug, Clone, Copy, PartialEq, Eq, Structural)]
pub struct ReadUsnJournalData {
    pub start_usn: i64,
    pub reason_mask: u32,
    pub return_only_on_close: u32,
    pub timeout: u64,
    pub bytes_to_wait_for: u64,
    pub usn_journal_id: u64,
}

/// The journal's closed create, delete and rename records from a start
/// position up to its head.
pub struct IterUsnRecord {
    in_buf: ReadUsnJournalData,
    out_buf: IterRecordBuf,
    buf_size: usize,
}

impl IterUsnRecord {
    /// The request that the next fetch must make.
    pub closed spec fn spec_request(&self) -> ReadUsnJournalData {
        self.in_buf
    }

    /// Bytes of the current batch not decoded yet.
    pub closed spec fn pending(&self) -> Seq<u8> {
        self.out_buf.pending()
    }

    /// Bytes to fetch per call.
    pub closed spec fn spec_buffer_size(&self) -> usize {
        self.buf_size
    }

    /// A stream over journal `id` from position `start` that fetches
    /// `buf_size` bytes at a time.
    pub fn with_start(id: u64, start: i64, buf_size: usize) -> (r: IterUsnRecord)
        ensures
            r.spec_request() == (ReadUsnJournalData {
                start_usn: start,
                reason_mask: JOURNAL_REASON_MASK,
                return_only_on_close: 1,
                timeout: 0,
                bytes_to_wait_for: 0,
                usn_journal_id: id,
            }),
            r.pending() == Seq::<u8>::empty(),
            r.spec_buffer_size() == buf_size,
    {
        IterUsnRecord {
            in_buf: ReadUsnJournalData {
                start_usn: start,
                reason_mask: JOURNAL_REASON_MASK,
                return_only_on_close: 1,
                timeout: 0,
                bytes_to_wait_for: 0,
                usn_journal_id: id,
            },
            out_buf: IterRecordBuf::new_uninit(),
            buf_size,
        }
    }

    /// Input of the next journal read.
    pub fn request(&self) -> (r: ReadUsnJournalData)
        ensures
            r == self.spec_request(),
    {
        self.in_buf
    }

    /// Bytes to fetch per call.
    pub fn buffer_size(&self) -> (r: usize)
        ensures
            r == self.spec_buffer_size(),
    {
        self.buf_size
    }

    /// The position that the journal has been read up to.
    pub fn next_usn(&self) -> (r: i64)
        ensures
            r == self.spec_request().start_usn,
    {
        self.in_buf.start_usn
    }

    /// The next record of the current batch, or `Step::Fetch` once it is used up.
    pub fn next(&mut self) -> (r: Result<Step, StreamError>)
        ensures
            final(self).spec_request() == old(self).spec_request(),
            final(self).spec_buffer_size() == old(self).spec_buffer_size(),
            old(self).pending().len() == 0 ==> is_fetch(r) && final(self).pending()
                == old(self).pending(),
            old(self).pending().len() > 0 ==> match record_at(old(self).pending()) {
                Some(raw) => match r {
                    Ok(Step::Record(rec)) => rec.decodes(raw) && final(self).pending() == old(
                        self,
                    ).pending().subrange(raw.length as int, old(self).pending().len() as int),
                    _ => false,
                },
                None => r == Err::<Step, StreamError>(StreamError::MalformedRecord),
            },
    {
        match self.out_buf.next_record() {
            Ok(Some(record)) => Ok(Step::Record(record)),
            Ok(None) => Ok(Step::Fetch),
            Err(e) => Err(e),
        }
    }

    /// Takes what the journal read gave. End of data ends the stream and
    /// another failure is an error; a batch too short to hold a cursor, or
    /// whose cursor is the one asked from (the head is reached), ends it too.
    /// Otherwise the cursor becomes the next request's start and the first
    /// record comes back; where no whole record follows the cursor, the
    /// buffer is too small.
    pub fn refill(&mut self, fetched: Fetched) -> (r: Result<Step, StreamError>)
        ensures
            final(self).spec_buffer_size() == old(self).spec_buffer_size(),
            match fetched {
                Fetched::Failed(code) => {
                    &&& is_end_of_data(code) ==> is_done(r)
                    &&& !is_end_of_data(code) ==> r == Err::<Step, StreamError>(
                        StreamError::DeviceIo(code),
                    )
                    &&& final(self).spec_request() == old(self).spec_request()
                },
                Fetched::Filled(b) => if b.len() < CURSOR_LEN || le_u64(b@, 0) as i64 == old(
                    self,
                ).spec_request().start_usn {
                    is_done(r) && final(self).spec_request() == old(
                        self,
                    ).spec_request()
                } else {
                    let body = batch_body(b@);
                    &&& final(self).spec_request() == (ReadUsnJournalData {
                        start_usn: le_u64(b@, 0) as i64,
                        ..old(self).spec_request()
                    })
                    &&& match record_at(body) {
                        Some(raw) => match r {
                            Ok(Step::Record(rec)) => rec.decodes(raw) && final(self).pending()
                                == body.subrange(raw.length as int, body.len() as int),
                            _ => false,
                        },
                        None => r == Err::<Step, StreamError>(
                            StreamError::BufferTooSmall(old(self).spec_buffer_size()),
                        ),
                    }
                },
            },
    {
        match fetched {
            Fetched::Failed(code) => {
                if end_of_data(code) {
                    Ok(Step::Done)
                } else {
                    Err(StreamError::DeviceIo(code))
                }
            },
            Fetched::Filled(bytes) => {
                if bytes.len() < CURSOR_LEN {
                    return Ok(Step::Done);
                }
                let usn = crate::record::read_u64(bytes.as_slice(), 0) as i64;
                if usn == self.in_buf.start_usn {
                    return Ok(Step::Done);
                }
                self.out_buf.reload(bytes);
                self.in_buf.start_usn = usn;
                self.out_buf.first(self.buf_size)
            },
        }
    }
}

} // verus!
