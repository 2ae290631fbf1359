//! What the library decides about volumes: which drives to index, which
//! file system it can read, and what the journal query returned.
use vstd::prelude::*;
use vstd::string::StringSliceAdditionalSpecFns;

use crate::index::UsnJournalData;
use crate::record::{le_u64, utf16_lossy};

verus! {

/// Drive types worth indexing (`GetDriveTypeW`): removable, fixed and RAM disks.
pub const DRIVE_REMOVABLE: u32 = 2;
pub const DRIVE_FIXED: u32 = 3;
pub const DRIVE_RAMDISK: u32 = 6;

/// Size of `USN_JOURNAL_DATA_V0`.
pub const JOURNAL_DATA_LEN: usize = 56;

/// Byte offset of `NextUsn` in `USN_JOURNAL_DATA_V0`.
pub const OFF_NEXT_USN: usize = 16;

/// The volume's file system is not NTFS.
#[derive(Debug, Clone, Copy, PartialEq, Eq, Structural)]
pub enum VolumeError {
    UnsupportedFilesystem,
}

/// Letter of drive number `i`, counting from `A`.
pub open spec fn drive_letter(i: int) -> char {
    ((65 + i) as u8) as char
}

/// Letters of the drives from number `i` on whose bit is set in `mask`.
pub open spec fn letters_from(mask: u32, i: int) -> Seq<char>
    decreases 26 - i,
{
    if i < 0 || 26 <= i {
        Seq::empty()
    } else if (mask >> (i as u32)) & 1 == 1 {
        seq![drive_letter(i)] + letters_from(mask, i + 1)
    } else {
        letters_from(mask, i + 1)
    }
}

/// Letters of the drives present in a `GetLogicalDrives` bit mask, bit 0 for `A`.
pub fn drive_letters(mask: u32) -> (r: Vec<char>)
    ensures
        r@ == letters_from(mask, 0),
{
    let mut out: Vec<char> = Vec::new();
    let mut i: u32 = 0;
    while i < 26
        invariant
            i <= 26,
            out@ + letters_from(mask, i as int) == letters_from(mask, 0),
        decreases 26 - i,
    {
        if (mask >> i) & 1 == 1 {
            let letter = (65 + i as u8) as char;
            let ghost before = out@;
            out.push(letter);
            assert(before + letters_from(mask, i as int) == out@ + letters_from(mask, i + 1));
        }
        i = i + 1;
    }
    assert(out@ + letters_from(mask, 26) =~= out@);
    out
}

/// Drives of these types are indexed; network drives and the like are not.
pub fn is_indexed_drive_type(drive_type: u32) -> (r: bool)
    ensures
        r == (drive_type == DRIVE_FIXED || drive_type == DRIVE_REMOVABLE || drive_type
            == DRIVE_RAMDISK),
{
    drive_type == DRIVE_FIXED || drive_type == DRIVE_REMOVABLE || drive_type == DRIVE_RAMDISK
}

/// Length of the text in `units` before its first NUL, or all of it.
pub open spec fn nul_terminated_len(units: Seq<u16>, i: int) -> int
    decreases units.len() - i,
{
    if i < 0 || units.len() <= i {
        units.len() as int
    } else if units[i] == 0 {
        i
    } else {
        nul_terminated_len(units, i + 1)
    }
}

/// The file system name that `GetVolumeInformationW` wrote: the units up to
/// the first NUL, decoded.
pub fn fs_name(units: &[u16]) -> (r: String)
    ensures
        r@ == utf16_lossy(units@.subrange(0, nul_terminated_len(units@, 0))),
{
    let mut text: Vec<u16> = Vec::new();
    let mut i: usize = 0;
    while i < units.len() && units[i] != 0
        invariant
            i <= units@.len(),
            text@ == units@.subrange(0, i as int),
            nul_terminated_len(units@, i as int) == nul_terminated_len(units@, 0),
        decreases units@.len() - i,
    {
        text.push(units[i]);
        i = i + 1;
        assert(text@ =~= units@.subrange(0, i as int));
    }
    crate::record::from_utf16_lossy(text.as_slice())
}

/// Only NTFS volumes keep the change journal that the index relies on.
pub fn check_filesystem(fs: &str) -> (r: Result<(), VolumeError>)
    ensures
        r is Ok <==> fs.spec_bytes() == seq![78u8, 84u8, 70u8, 83u8],
        r is Err ==> r == Err::<(), VolumeError>(VolumeError::UnsupportedFilesystem),
{
    let b = fs.as_bytes();
    if b.len() == 4 && b[0] == 78 && b[1] == 84 && b[2] == 70 && b[3] == 83 {
        assert(b@ =~= seq![78u8, 84u8, 70u8, 83u8]);
        Ok(())
    } else {
        Err(VolumeError::UnsupportedFilesystem)
    }
}

impl UsnJournalData {
    /// Reads the journal's identity and next position out of the bytes that
    /// `FSCTL_QUERY_USN_JOURNAL` wrote; `None` where they are fewer than
    /// the structure holds.
    pub fn from_bytes(buf: &[u8]) -> (r: Option<UsnJournalData>)
        ensures
            buf@.len() < JOURNAL_DATA_LEN ==> r is None,
            buf@.len() >= JOURNAL_DATA_LEN ==> r == Some(
                UsnJournalData { id: le_u64(buf@, 0), next_usn: le_u64(buf@, OFF_NEXT_USN as int) as i64 },
            ),
    {
        if buf.len() < JOURNAL_DATA_LEN {
            return None;
        }
        Some(
            UsnJournalData {
                id: crate::record::read_u64(buf, 0),
                next_usn: crate::record::read_u64(buf, OFF_NEXT_USN) as i64,
            },
        )
    }
}

} // verus!
