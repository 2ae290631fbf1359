use ffd::{check_filesystem, drive_letters, fs_name, is_indexed_drive_type, UsnJournalData, VolumeError};

#[test]
fn drive_letters_follow_mask_bits() {
    assert_eq!(drive_letters(0b101), vec!['A', 'C']);
    assert_eq!(drive_letters(0), Vec::<char>::new());
    assert_eq!(drive_letters(1 << 25), vec!['Z']);
    assert_eq!(drive_letters(0x03FF_FFFF).len(), 26);
    assert_eq!(drive_letters(0xFC00_0000), Vec::<char>::new());
}

#[test]
fn indexed_drive_types() {
    assert!(is_indexed_drive_type(2));
    assert!(is_indexed_drive_type(3));
    assert!(is_indexed_drive_type(6));
    assert!(!is_indexed_drive_type(4));
    assert!(!is_indexed_drive_type(5));
    assert!(!is_indexed_drive_type(0));
}

#[test]
fn fs_name_stops_at_nul() {
    let units = [78u16, 84, 70, 83, 0, 70, 65, 84, 0, 0, 0, 0];
    assert_eq!(fs_name(&units), "NTFS");
    assert_eq!(fs_name(&[70u16, 65, 84]), "FAT");
    assert_eq!(fs_name(&[0u16, 70]), "");
    assert_eq!(fs_name(&[0x52u16, 0xE9]), "Ré");
}

#[test]
fn only_ntfs_is_supported() {
    assert_eq!(check_filesystem("NTFS"), Ok(()));
    assert_eq!(check_filesystem("FAT32"), Err(VolumeError::UnsupportedFilesystem));
    assert_eq!(check_filesystem("ntfs"), Err(VolumeError::UnsupportedFilesystem));
    assert_eq!(check_filesystem(""), Err(VolumeError::UnsupportedFilesystem));
}

#[test]
fn journal_data_from_bytes() {
    let mut b = vec![0u8; 56];
    b[0..8].copy_from_slice(&0x0123_4567_89AB_CDEFu64.to_le_bytes());
    b[8..16].copy_from_slice(&5i64.to_le_bytes());
    b[16..24].copy_from_slice(&98765i64.to_le_bytes());
    let data = UsnJournalData::from_bytes(&b).unwrap();
    assert_eq!(data, UsnJournalData { id: 0x0123_4567_89AB_CDEF, next_usn: 98765 });
    assert!(UsnJournalData::from_bytes(&b[..55]).is_none());
}
