//! Decoding of ustar archives.
//!
//! An archive is a run of 512-byte blocks. A header block describes one entry
//! and is followed by the entry's contents, padded to whole blocks; two
//! all-zero blocks in a row end the archive. The decoder hands each entry to a
//! destination, which opens a writer for it, receives the contents chunk by
//! chunk and commits the entry at its end.

pub mod archive;
pub mod decoder;
pub mod destination;
pub mod disk;
pub mod error;
pub mod header;
pub mod text;
pub mod theorems;

pub use decoder::{feed_block, list_files_in_tar, parse_tar, ParseTarError, Progress};
pub use destination::{
    FileSystemImpl, FileWriter, MemoryFile, MemoryFileSystem, NullFile, NullFileSystem,
};
pub use error::{TarError, TextField};
pub use header::{TarFileType, TarHeader, TarHeaderCastedFields, BLOCK_SIZE};
