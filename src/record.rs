//! Decoding of `USN_RECORD_V2` records out of a raw byte buffer.
use vstd::prelude::*;

verus! {

/// Size of the fixed part of a version 2 record, up to the file name.
pub const HEADER_LEN: usize = 60;

/// Byte offset of `RecordLength`, the bytes the whole record takes.
pub const OFF_RECORD_LENGTH: usize = 0;
/// Byte offset of `FileReferenceNumber`, the entry's id.
pub const OFF_FILE_REFERENCE: usize = 8;
/// Byte offset of `ParentFileReferenceNumber`, the id of its directory.
pub const OFF_PARENT_REFERENCE: usize = 16;
/// Byte offset of `Reason`, the change bits.
pub const OFF_REASON: usize = 40;
/// Byte offset of `FileNameLength`, in bytes.
pub const OFF_NAME_LENGTH: usize = 56;
/// Byte offset of `FileNameOffset`, from the start of the record.
pub const OFF_NAME_OFFSET: usize = 58;

/// Little-endian `u16` stored at `b[i..i + 2]`.
pub open spec fn le_u16(b: Seq<u8>, i: int) -> u16 {
    (b[i] as u16) | ((b[i + 1] as u16) << 8u16)
}

/// Little-endian `u32` stored at `b[i..i + 4]`.
pub open spec fn le_u32(b: Seq<u8>, i: int) -> u32 {
    (b[i] as u32) | ((b[i + 1] as u32) << 8u32) | ((b[i + 2] as u32) << 16u32) | ((b[i + 3] as u32)
        << 24u32)
}

/// Little-endian `u64` stored at `b[i..i + 8]`.
pub open spec fn le_u64(b: Seq<u8>, i: int) -> u64 {
    (b[i] as u64) | ((b[i + 1] as u64) << 8u64) | ((b[i + 2] as u64) << 16u64) | ((b[i + 3] as u64)
        << 24u64) | ((b[i + 4] as u64) << 32u64) | ((b[i + 5] as u64) << 40u64) | ((b[i + 6] as u64)
        << 48u64) | ((b[i + 7] as u64) << 56u64)
}

/// The `n` UTF-16 code units stored from `b[start]` on.
pub open spec fn le_units(b: Seq<u8>, start: int, n: int) -> Seq<u16> {
    Seq::new(n as nat, |k: int| le_u16(b, start + 2 * k))
}

/// What a record holds, before its name is turned into text.
pub struct RawRecord {
    pub frn: u64,
    pub parent_frn: u64,
    pub name: Seq<u16>,
    pub reason: u32,
    pub length: u32,
}

/// The record at the start of `b`, if one fits there: its header lies in
/// `b`, its declared length covers at least the header and stays within `b`,
/// and its name lies within the declared length.
pub open spec fn record_at(b: Seq<u8>) -> Option<RawRecord> {
    if HEADER_LEN <= b.len() {
        let length = le_u32(b, OFF_RECORD_LENGTH as int);
        let name_len = le_u16(b, OFF_NAME_LENGTH as int);
        let name_off = le_u16(b, OFF_NAME_OFFSET as int);
        if HEADER_LEN <= length && length <= b.len() && name_off + name_len <= length {
            Some(
                RawRecord {
                    frn: le_u64(b, OFF_FILE_REFERENCE as int),
                    parent_frn: le_u64(b, OFF_PARENT_REFERENCE as int),
                    name: le_units(b, name_off as int, (name_len / 2) as int),
                    reason: le_u32(b, OFF_REASON as int),
                    length,
                },
            )
        } else {
            None
        }
    } else {
        None
    }
}

/// The records packed in `b`, one after another to its end; `None` where
/// some part of it is not a record.
pub open spec fn records_in(b: Seq<u8>) -> Option<Seq<RawRecord>>
    decreases b.len(),
{
    if b.len() == 0 {
        Some(Seq::empty())
    } else {
        match record_at(b) {
            None => None,
            Some(r) => if 0 < r.length <= b.len() {
                match records_in(b.subrange(r.length as int, b.len() as int)) {
                    Some(rest) => Some(seq![r] + rest),
                    None => None,
                }
            } else {
                None
            },
        }
    }
}

/// Byte `k` of `x`, least significant first.
pub open spec fn byte_of(x: u64, k: int) -> u8 {
    ((x >> ((8 * k) as u64)) & 0xff) as u8
}

/// A record that a writer can lay out: its name fits the 16-bit length
/// field and its length is the header plus the name.
pub open spec fn well_formed(r: RawRecord) -> bool {
    &&& 2 * r.name.len() <= 0xFFFF
    &&& r.length == HEADER_LEN + 2 * r.name.len()
}

/// Byte `k` of the layout of `r`: version 2 header with the name right
/// after it, every field that the decoder skips left zero.
pub open spec fn layout_byte(r: RawRecord, k: int) -> u8 {
    if k < 4 {
        byte_of(r.length as u64, k)
    } else if k == 4 {
        2
    } else if 8 <= k < 16 {
        byte_of(r.frn, k - 8)
    } else if 16 <= k < 24 {
        byte_of(r.parent_frn, k - 16)
    } else if 40 <= k < 44 {
        byte_of(r.reason as u64, k - 40)
    } else if 56 <= k < 58 {
        byte_of((2 * r.name.len()) as u64, k - 56)
    } else if 58 <= k < 60 {
        byte_of(HEADER_LEN as u64, k - 58)
    } else if k < 60 {
        0
    } else {
        byte_of(r.name[(k - 60) / 2] as u64, (k - 60) % 2)
    }
}

/// The bytes of `r` as the file system lays a record out.
pub open spec fn layout(r: RawRecord) -> Seq<u8> {
    Seq::new(r.length as nat, |k: int| layout_byte(r, k))
}

/// The bytes of `rs`, one record after another.
pub open spec fn layout_all(rs: Seq<RawRecord>) -> Seq<u8>
    decreases rs.len(),
{
    if rs.len() == 0 {
        Seq::empty()
    } else {
        layout(rs[0]) + layout_all(rs.drop_first())
    }
}

proof fn lemma_bytes_u16(x: u16)
    ensures
        ((((x as u64) >> 0u64) & 0xff) as u8 as u16) | (((((x as u64) >> 8u64) & 0xff) as u8 as u16) << 8u16)
            == x,
{
    assert(((((x as u64) >> 0u64) & 0xff) as u8 as u16) | (((((x as u64) >> 8u64) & 0xff) as u8 as u16)
        << 8u16) == x) by (bit_vector);
}

proof fn lemma_bytes_u32(x: u32)
    ensures
        ((((x as u64) >> 0u64) & 0xff) as u8 as u32) | (((((x as u64) >> 8u64) & 0xff) as u8 as u32) << 8u32)
            | (((((x as u64) >> 16u64) & 0xff) as u8 as u32) << 16u32) | (((((x as u64) >> 24u64)
            & 0xff) as u8 as u32) << 24u32) == x,
{
    assert(((((x as u64) >> 0u64) & 0xff) as u8 as u32) | (((((x as u64) >> 8u64) & 0xff) as u8 as u32)
        << 8u32) | (((((x as u64) >> 16u64) & 0xff) as u8 as u32) << 16u32) | (((((x as u64)
        >> 24u64) & 0xff) as u8 as u32) << 24u32) == x) by (bit_vector);
}

proof fn lemma_bytes_u64(x: u64)
    ensures
        (((x >> 0u64) & 0xff) as u8 as u64) | ((((x >> 8u64) & 0xff) as u8 as u64) << 8u64) | ((((x
            >> 16u64) & 0xff) as u8 as u64) << 16u64) | ((((x >> 24u64) & 0xff) as u8 as u64)
            << 24u64) | ((((x >> 32u64) & 0xff) as u8 as u64) << 32u64) | ((((x >> 40u64) & 0xff)
            as u8 as u64) << 40u64) | ((((x >> 48u64) & 0xff) as u8 as u64) << 48u64) | ((((x
            >> 56u64) & 0xff) as u8 as u64) << 56u64) == x,
{
    assert((((x >> 0u64) & 0xff) as u8 as u64) | ((((x >> 8u64) & 0xff) as u8 as u64) << 8u64) | ((((x
        >> 16u64) & 0xff) as u8 as u64) << 16u64) | ((((x >> 24u64) & 0xff) as u8 as u64)
        << 24u64) | ((((x >> 32u64) & 0xff) as u8 as u64) << 32u64) | ((((x >> 40u64) & 0xff)
        as u8 as u64) << 40u64) | ((((x >> 48u64) & 0xff) as u8 as u64) << 48u64) | ((((x
        >> 56u64) & 0xff) as u8 as u64) << 56u64) == x) by (bit_vector);
}

/// The bytes `byte_of` gives of a `u16` read back as one.
proof fn lemma_read_u16(b: Seq<u8>, i: int, x: u16)
    requires
        0 <= i,
        i + 2 <= b.len(),
        b[i] == byte_of(x as u64, 0),
        b[i + 1] == byte_of(x as u64, 1),
    ensures
        le_u16(b, i) == x,
{
    lemma_bytes_u16(x);
}

proof fn lemma_read_u32(b: Seq<u8>, i: int, x: u32)
    requires
        0 <= i,
        i + 4 <= b.len(),
        forall|k: int| 0 <= k < 4 ==> b[i + k] == #[trigger] byte_of(x as u64, k),
    ensures
        le_u32(b, i) == x,
{
    assert(b[i] == byte_of(x as u64, 0));
    assert(b[i + 1] == byte_of(x as u64, 1));
    assert(b[i + 2] == byte_of(x as u64, 2));
    assert(b[i + 3] == byte_of(x as u64, 3));
    lemma_bytes_u32(x);
}

proof fn lemma_read_u64(b: Seq<u8>, i: int, x: u64)
    requires
        0 <= i,
        i + 8 <= b.len(),
        forall|k: int| 0 <= k < 8 ==> b[i + k] == #[trigger] byte_of(x, k),
    ensures
        le_u64(b, i) == x,
{
    assert(b[i] == byte_of(x, 0));
    assert(b[i + 1] == byte_of(x, 1));
    assert(b[i + 2] == byte_of(x, 2));
    assert(b[i + 3] == byte_of(x, 3));
    assert(b[i + 4] == byte_of(x, 4));
    assert(b[i + 5] == byte_of(x, 5));
    assert(b[i + 6] == byte_of(x, 6));
    assert(b[i + 7] == byte_of(x, 7));
    lemma_bytes_u64(x);
}

/// A laid-out record, whatever follows it, decodes to itself.
proof fn lemma_record_at_layout(r: RawRecord, rest: Seq<u8>)
    requires
        well_formed(r),
    ensures
        record_at(layout(r) + rest) == Some(r),
{
    let b = layout(r) + rest;
    let n = r.name.len();
    assert forall|k: int| 0 <= k < r.length implies #[trigger] b[k] == layout_byte(r, k) by {}
    lemma_read_u32(b, 0, r.length);
    lemma_read_u64(b, 8, r.frn);
    lemma_read_u64(b, 16, r.parent_frn);
    lemma_read_u32(b, 40, r.reason);
    lemma_read_u16(b, 56, (2 * n) as u16);
    lemma_read_u16(b, 58, HEADER_LEN as u16);
    assert forall|j: int| 0 <= j < n implies #[trigger] le_u16(b, 60 + 2 * j) == r.name[j] by {
        assert((60 + 2 * j - 60) / 2 == j);
        assert((60 + 2 * j - 60) % 2 == 0);
        assert((60 + 2 * j + 1 - 60) / 2 == j);
        assert((60 + 2 * j + 1 - 60) % 2 == 1);
        lemma_read_u16(b, 60 + 2 * j, r.name[j]);
    }
    let raw = record_at(b)->0;
    assert(raw.name =~= r.name);
}

/// Records laid out one after another decode to the same records, in the
/// same order, with every field as it was written.
pub proof fn lemma_records_round_trip(rs: Seq<RawRecord>)
    requires
        forall|i: int| 0 <= i < rs.len() ==> well_formed(#[trigger] rs[i]),
    ensures
        records_in(layout_all(rs)) == Some(rs),
    decreases rs.len(),
{
    if rs.len() == 0 {
    } else {
        let tail = rs.drop_first();
        assert forall|i: int| 0 <= i < tail.len() implies well_formed(#[trigger] tail[i]) by {
            assert(tail[i] == rs[i + 1]);
        }
        lemma_records_round_trip(tail);
        let b = layout_all(rs);
        lemma_record_at_layout(rs[0], layout_all(tail));
        assert(b.subrange(rs[0].length as int, b.len() as int) =~= layout_all(tail));
        assert(seq![rs[0]] + tail =~= rs);
    }
}

/// Reading packed records one at a time, as the streams do, gives the
/// records of `records_in` in order: the first record, then those of the
/// bytes after it.
pub proof fn lemma_records_in_first(b: Seq<u8>, rs: Seq<RawRecord>)
    requires
        records_in(b) == Some(rs),
        rs.len() > 0,
    ensures
        record_at(b) == Some(rs[0]),
        records_in(b.subrange(rs[0].length as int, b.len() as int)) == Some(rs.drop_first()),
{
    let r = record_at(b)->0;
    let rest = records_in(b.subrange(r.length as int, b.len() as int))->0;
    assert(rs == seq![r] + rest);
    assert(rs.drop_first() =~= rest);
}

/// Bytes too few for a header hold no record.
pub proof fn lemma_short_bytes_hold_no_record(b: Seq<u8>)
    requires
        b.len() < HEADER_LEN,
    ensures
        record_at(b) is None,
        b.len() > 0 ==> records_in(b) is None,
{
}

/// The text that lossy UTF-16 decoding makes of `units`.
pub uninterp spec fn utf16_lossy(units: Seq<u16>) -> Seq<char>;

/// Relies on `String::from_utf16_lossy`: the text depends on the code units
/// alone, with U+FFFD for each unpaired surrogate.
#[verifier::external_body]
pub(crate) fn from_utf16_lossy(units: &[u16]) -> (r: String)
    ensures
        r@ == utf16_lossy(units@),
{
    String::from_utf16_lossy(units)
}

/// The little-endian `u16` at `b[i]`.
pub fn read_u16(b: &[u8], i: usize) -> (r: u16)
    requires
        i + 2 <= b@.len(),
    ensures
        r == le_u16(b@, i as int),
{
    (b[i] as u16) | ((b[i + 1] as u16) << 8u16)
}

/// The little-endian `u32` at `b[i]`.
pub fn read_u32(b: &[u8], i: usize) -> (r: u32)
    requires
        i + 4 <= b@.len(),
    ensures
        r == le_u32(b@, i as int),
{
    (b[i] as u32) | ((b[i + 1] as u32) << 8u32) | ((b[i + 2] as u32) << 16u32) | ((b[i + 3] as u32)
        << 24u32)
}

/// The little-endian `u64` at `b[i]`.
pub fn read_u64(b: &[u8], i: usize) -> (r: u64)
    requires
        i + 8 <= b@.len(),
    ensures
        r == le_u64(b@, i as int),
{
    (b[i] as u64) | ((b[i + 1] as u64) << 8u64) | ((b[i + 2] as u64) << 16u64) | ((b[i + 3] as u64)
        << 24u64) | ((b[i + 4] as u64) << 32u64) | ((b[i + 5] as u64) << 40u64) | ((b[i + 6] as u64)
        << 48u64) | ((b[i + 7] as u64) << 56u64)
}

/// One change record: the entry, its parent, its name and why it was logged.
#[derive(Debug, Clone)]
pub struct UsnRecord {
    pub frn: u64,
    pub parent_frn: u64,
    pub filename: String,
    pub reason: u32,
}

impl UsnRecord {
    /// The record is what `raw` holds, its name decoded.
    pub open spec fn decodes(&self, raw: RawRecord) -> bool {
        &&& self.frn == raw.frn
        &&& self.parent_frn == raw.parent_frn
        &&& self.filename@ == utf16_lossy(raw.name)
        &&& self.reason == raw.reason
    }

    /// Decodes the record that starts at `buf[offset]`, with the number of
    /// bytes it takes there; `None` where no record fits.
    pub fn from_bytes(buf: &[u8], offset: usize) -> (r: Option<(UsnRecord, u32)>)
        ensures
            offset > buf@.len() ==> r is None,
            offset <= buf@.len() ==> match record_at(buf@.subrange(offset as int, buf@.len() as int)) {
                None => r is None,
                Some(raw) => match r {
                    Some((rec, len)) => rec.decodes(raw) && len == raw.length,
                    None => false,
                },
            },
    {
        if offset > buf.len() || buf.len() - offset < HEADER_LEN {
            return None;
        }
        let length = read_u32(buf, offset + OFF_RECORD_LENGTH);
        let name_len = read_u16(buf, offset + OFF_NAME_LENGTH);
        let name_off = read_u16(buf, offset + OFF_NAME_OFFSET);
        if (length as usize) < HEADER_LEN || length as usize > buf.len() - offset || name_off as u32
            + name_len as u32 > length {
            return None;
        }
        let start = offset + name_off as usize;
        let n = (name_len / 2) as usize;
        let mut units: Vec<u16> = Vec::with_capacity(n);
        let mut k: usize = 0;
        while k < n
            invariant
                k <= n,
                n == name_len / 2,
                start == offset + name_off,
                start + 2 * n <= buf.len(),
                units@ == le_units(buf@, start as int, k as int),
            decreases n - k,
        {
            units.push(read_u16(buf, start + 2 * k));
            k = k + 1;
            assert(units@ =~= le_units(buf@, start as int, k as int));
        }
        let ghost rest = buf@.subrange(offset as int, buf@.len() as int);
        assert(units@ =~= le_units(rest, name_off as int, (name_len / 2) as int));
        let filename = from_utf16_lossy(units.as_slice());
        let record = UsnRecord {
            frn: read_u64(buf, offset + OFF_FILE_REFERENCE),
            parent_frn: read_u64(buf, offset + OFF_PARENT_REFERENCE),
            filename,
            reason: read_u32(buf, offset + OFF_REASON),
        };
        Some((record, length))
    }
}

} // verus!
