use tar_parser::disk::{accept_write, disk_handle_for, needs_flush, DiskHandle};
use tar_parser::TarFileType;

#[test]
fn regular_file_becomes_a_file() {
    assert_eq!(disk_handle_for(TarFileType::RegularFile), Ok(DiskHandle::File));
}

#[test]
fn directory_becomes_a_directory() {
    assert_eq!(disk_handle_for(TarFileType::Dir), Ok(DiskHandle::Dir));
}

#[test]
fn other_kinds_cannot_be_unpacked() {
    let kinds = [
        TarFileType::Link,
        TarFileType::SymTypeReserved,
        TarFileType::CharacterSpecial,
        TarFileType::BlockSpecial,
        TarFileType::FifoSpecial,
        TarFileType::ContTypeReserved,
        TarFileType::XHDType,
        TarFileType::XGLType,
    ];
    for kind in kinds {
        assert_eq!(
            disk_handle_for(kind),
            Err(String::from("unable to create file with type other than file or dir"))
        );
    }
}

#[test]
fn file_takes_contents() {
    assert_eq!(accept_write(DiskHandle::File), Ok(()));
    assert!(needs_flush(DiskHandle::File));
}

#[test]
fn directory_takes_no_contents() {
    assert_eq!(accept_write(DiskHandle::Dir), Err(String::from("unable to write to dir type")));
    assert!(!needs_flush(DiskHandle::Dir));
}
