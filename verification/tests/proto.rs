use cat_dev::errors::NetworkParseError;
use cat_dev::fsemul::pcfs::errors::{PCFSApiError, SataProtocolError};
use cat_dev::fsemul::pcfs::sata::proto::close_folder::SataCloseFolderPacketBody;
use cat_dev::fsemul::pcfs::sata::proto::create_directory::SataCreateDirectoryPacketBody;
use cat_dev::fsemul::pcfs::sata::proto::create_folder::SataCreateFolderPacketBody;
use cat_dev::fsemul::pcfs::sata::proto::get_info_by_query::PCFSSataFdInfo;
use cat_dev::fsemul::pcfs::sata::proto::location::MoveToFileLocation;
use cat_dev::fsemul::pcfs::sata::proto::open_file::{check_mode, SataOpenFilePacketBody};
use cat_dev::fsemul::pcfs::sata::proto::ping::{SataPingPacketBody, SataPongBody};
use cat_dev::fsemul::pcfs::sata::proto::read_file::SataReadFilePacketBody;
use cat_dev::fsemul::pcfs::sata::proto::read_folder::{
    DirectoryItemResponse, SataReadFolderPacketBody, NO_MORE_ITEMS,
};
use cat_dev::fsemul::pcfs::sata::proto::remove::SataRemovePacketBody;
use cat_dev::fsemul::pcfs::sata::proto::rename::SataRenamePacketBody;
use cat_dev::fsemul::pcfs::sata::proto::rewind_folder::SataRewindFolderPacketBody;
use cat_dev::fsemul::pcfs::sata::proto::set_file_position::SataSetFilePositionPacketBody;
use cat_dev::fsemul::pcfs::sata::proto::stat_file::SataStatFilePacketBody;
use cat_dev::fsemul::pcfs::sata::proto::write_file::SataWriteFilePacketBody;

#[test]
fn file_descriptor_bodies() {
    let close = SataCloseFolderPacketBody::new(-2);
    assert_eq!(close.to_bytes(), vec![0xFF, 0xFF, 0xFF, 0xFE]);
    assert_eq!(
        SataCloseFolderPacketBody::try_from_bytes(&[0, 0, 0, 7]).map(|b| b.file_descriptor()),
        Ok(7)
    );
    assert!(matches!(
        SataStatFilePacketBody::try_from_bytes(&[0, 0, 7]),
        Err(NetworkParseError::FieldNotLongEnough(_, _, 4, 3, _))
    ));
    assert!(matches!(
        SataRewindFolderPacketBody::try_from_bytes(&[0, 0, 0, 7, 1]),
        Err(NetworkParseError::UnexpectedTrailer(_, _))
    ));
    let mut stat = SataStatFilePacketBody::new(1);
    stat.set_file_descriptor(5);
    assert_eq!(stat.to_bytes(), vec![0, 0, 0, 5]);
    assert_eq!(SataReadFolderPacketBody::new(3).to_bytes(), vec![0, 0, 0, 3]);
}

#[test]
fn ping_and_pong() {
    assert!(SataPingPacketBody::new().to_bytes().is_empty());
    assert!(SataPingPacketBody::try_from_bytes(&[]).is_ok());
    assert!(matches!(
        SataPingPacketBody::try_from_bytes(&[1]),
        Err(NetworkParseError::UnexpectedTrailer(_, _))
    ));
    assert_eq!(SataPongBody::new(true, true).to_bytes(), vec![0, 0, 0, 0, 0xCA, 0xFE, 0, 3]);
    assert_eq!(SataPongBody::new(true, false).to_bytes(), vec![0, 0, 0, 0, 0xCA, 0xFE, 0, 1]);
    assert_eq!(SataPongBody::new(false, true).to_bytes(), vec![0, 0, 0, 0, 0xCA, 0xFE, 0, 2]);
    assert_eq!(SataPongBody::new(false, false).to_bytes(), vec![0; 8]);
    for (ffio, csr) in [(true, true), (true, false), (false, true), (false, false)] {
        let pong = SataPongBody::try_from_bytes(&SataPongBody::new(ffio, csr).to_bytes())
            .expect("reads back");
        assert_eq!(pong.ffio_enabled(), ffio);
        assert_eq!(pong.combined_send_recv_enabled(), csr);
    }
    assert!(matches!(
        SataPongBody::try_from_bytes(&[0, 0, 0, 1, 0, 0, 0, 0]),
        Err(NetworkParseError::ErrorCode(1))
    ));
}

#[test]
fn file_locations() {
    for loc in [MoveToFileLocation::Begin, MoveToFileLocation::Current, MoveToFileLocation::End] {
        assert_eq!(MoveToFileLocation::try_from_u32(loc.to_u32()), Ok(loc));
    }
    assert_eq!(
        MoveToFileLocation::try_from_u32(9),
        Err(SataProtocolError::UnknownFileLocation(9))
    );
}

#[test]
fn read_and_write_file_bodies() {
    let read = SataReadFilePacketBody::new(2, 512, 4, Some(MoveToFileLocation::End));
    let bytes = read.to_bytes();
    assert_eq!(
        bytes,
        vec![0, 0, 0, 2, 0, 0, 2, 0, 0, 0, 0, 4, 0, 0, 0, 2, 0, 0, 0, 1]
    );
    let back = SataReadFilePacketBody::try_from_bytes(&bytes).expect("reads back");
    assert_eq!(back.block_count(), 2);
    assert_eq!(back.block_size(), 512);
    assert_eq!(back.file_descriptor(), 4);
    assert!(back.should_move());
    assert_eq!(back.move_to_pointer(), MoveToFileLocation::End);

    let write = SataWriteFilePacketBody::new(1, 100, 6, None);
    let bytes = write.to_bytes();
    let back = SataWriteFilePacketBody::try_from_bytes(&bytes).expect("reads back");
    assert_eq!(back.block_size(), 100);
    assert!(!back.should_move());

    let pos = SataSetFilePositionPacketBody::new(3, MoveToFileLocation::Current);
    let bytes = pos.to_bytes();
    assert_eq!(bytes, vec![0, 0, 0, 3, 0, 0, 0, 1]);
    let back = SataSetFilePositionPacketBody::try_from_bytes(&bytes).expect("reads back");
    assert_eq!(back.move_to_pointer(), MoveToFileLocation::Current);
}

#[test]
fn path_bodies() {
    let remove = SataRemovePacketBody::new("/%SLC_EMU_DIR/a".to_owned()).expect("short path");
    let bytes = remove.to_bytes();
    assert_eq!(bytes.len(), 0x200);
    assert_eq!(
        SataRemovePacketBody::try_from_bytes(&bytes).expect("reads back").path(),
        "/%SLC_EMU_DIR/a"
    );
    let rename = SataRenamePacketBody::new("/a".to_owned(), "/b".to_owned()).expect("short paths");
    let bytes = rename.to_bytes();
    assert_eq!(bytes.len(), 0x400);
    assert_eq!(bytes[0x200], b'/');
    let back = SataRenamePacketBody::try_from_bytes(&bytes).expect("reads back");
    assert_eq!(back.source_path(), "/a");
    assert_eq!(back.dest_path(), "/b");
    let folder = SataCreateFolderPacketBody::new("/c".to_owned(), true).expect("short path");
    let bytes = folder.to_bytes();
    assert_eq!(&bytes[0x200..0x204], &[0, 0, 6, 0x66]);
    assert!(SataCreateFolderPacketBody::try_from_bytes(&bytes).expect("reads back").will_set_write_mode());
    let dir = SataCreateDirectoryPacketBody::new("/d".to_owned(), false).expect("short path");
    let bytes = dir.to_bytes();
    assert_eq!(&bytes[0x200..0x204], &[0, 0, 4, 0x44]);
    let long = "x".repeat(600);
    assert_eq!(
        SataRemovePacketBody::new(long.clone()).err(),
        Some(PCFSApiError::PathTooLong(long))
    );
    let mut no_nul = vec![b'a'; 0x200];
    no_nul[0] = b'/';
    assert_eq!(
        SataRemovePacketBody::try_from_bytes(&no_nul).err(),
        Some(NetworkParseError::BadCString)
    );
}

#[test]
fn open_file_modes() {
    assert!(check_mode("r"));
    assert!(check_mode("wb+"));
    assert!(check_mode("a+"));
    assert!(!check_mode("x"));
    assert!(!check_mode("rbbb"));
    assert_eq!(
        SataOpenFilePacketBody::new("/a".to_owned(), "q".to_owned()).err(),
        Some(PCFSApiError::BadModeString("q".to_owned()))
    );
    let open = SataOpenFilePacketBody::new("/a".to_owned(), "rb".to_owned()).expect("valid");
    assert_eq!(open.path(), "/a");
    assert_eq!(open.mode(), "rb");
    assert!(!check_mode(""));
    assert_eq!(
        SataOpenFilePacketBody::new("/x".to_owned(), String::new()).err(),
        Some(PCFSApiError::BadModeString(String::new()))
    );
}

#[test]
fn open_file_round_trip() {
    let open = SataOpenFilePacketBody::new("/a".to_owned(), "rb".to_owned()).expect("valid");
    let bytes = open.to_bytes();
    assert_eq!(bytes.len(), 0x210);
    assert_eq!(&bytes[0..3], b"rb\0");
    assert_eq!(&bytes[0x10..0x13], b"/a\0");
    let back = SataOpenFilePacketBody::try_from_bytes(&bytes).expect("reads back");
    assert_eq!(back, open);
    let mut empty_mode = bytes.clone();
    empty_mode[0] = 0;
    assert!(SataOpenFilePacketBody::try_from_bytes(&empty_mode).is_err());
}

#[test]
fn directory_items() {
    let info = PCFSSataFdInfo::from_stat(false, true, true, 0, 0, 0);
    let item = DirectoryItemResponse::new_next(info, "cafe.bat".to_owned()).expect("short name");
    let bytes = item.to_bytes();
    assert_eq!(bytes.len(), 4 + 84 + 256);
    let back = DirectoryItemResponse::try_from_bytes(&bytes).expect("reads back");
    assert!(back.is_successful());
    assert_eq!(back.file_info().map(|(_, name)| name.as_str()), Some("cafe.bat"));
    let done = DirectoryItemResponse::new_nothing_left();
    assert_eq!(done.return_code(), NO_MORE_ITEMS);
    assert!(done.take_file_info().is_none());
}
