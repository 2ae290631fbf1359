//! File-name search over an NTFS volume: an index built from one full scan of
//! the volume's entries and kept current from its change journal.
pub mod find;
pub mod index;
pub mod record;
pub mod stream;
pub mod volume;

pub use find::{contains_folded, original_span, FullPath};
pub use index::{Index, SyncError, UsnJournalData};
pub use record::UsnRecord;
pub use stream::{
    Fetched, IterFileRecord, IterUsnRecord, MftEnumData, ReadUsnJournalData, Step, StreamError,
};
pub use volume::{check_filesystem, drive_letters, fs_name, is_indexed_drive_type, VolumeError};
