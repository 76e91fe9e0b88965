//! The rules of a destination that unpacks onto a disk. The calls that
//! touch the disk are the caller's; what is allowed is decided here.

use crate::header::TarFileType;
use vstd::prelude::*;

verus! {

/// What a destination on disk makes for an entry.
#[derive(Debug, Clone, Copy, PartialEq, Eq)]
pub enum DiskHandle {
    /// A new file, which takes the entry's contents.
    File,
    /// A directory, made with its parents. It takes no contents.
    Dir,
}

/// The message for an entry that is neither a regular file nor a directory.
pub open spec fn unsupported_kind() -> Seq<char> {
    "unable to create file with type other than file or dir"@
}

/// The message for contents that are written to a directory.
pub open spec fn write_to_dir() -> Seq<char> {
    "unable to write to dir type"@
}

/// What to make on disk for an entry of the given kind: a file for a regular
/// file, a directory for a directory. No other kind can be unpacked.
pub fn disk_handle_for(kind: TarFileType) -> (r: Result<DiskHandle, String>)
    ensures
        match kind {
            TarFileType::RegularFile => r == Ok::<DiskHandle, String>(DiskHandle::File),
            TarFileType::Dir => r == Ok::<DiskHandle, String>(DiskHandle::Dir),
            _ => r matches Err(message) && message@ == unsupported_kind(),
        },
{
    match kind {
        TarFileType::RegularFile => Ok(DiskHandle::File),
        TarFileType::Dir => Ok(DiskHandle::Dir),
        _ => Err(
            String::from_str("unable to create file with type other than file or dir"),
        ),
    }
}

/// Whether a handle takes contents: a file does, a directory does not.
pub fn accept_write(handle: DiskHandle) -> (r: Result<(), String>)
    ensures
        match handle {
            DiskHandle::File => r is Ok,
            DiskHandle::Dir => r matches Err(message) && message@ == write_to_dir(),
        },
{
    match handle {
        DiskHandle::File => Ok(()),
        DiskHandle::Dir => Err(String::from_str("unable to write to dir type")),
    }
}

/// Whether a commit has buffered contents to flush: those of a file.
pub fn needs_flush(handle: DiskHandle) -> (r: bool)
    ensures
        r == (handle is File),
{
    match handle {
        DiskHandle::File => true,
        DiskHandle::Dir => false,
    }
}

} // verus!
