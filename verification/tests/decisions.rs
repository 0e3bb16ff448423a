use cat_dev::fsemul::pcfs::sata::proto::get_info_by_query::PCFSSataFdInfo;
use cat_dev::fsemul::pcfs::sata::server::decisions::{
    change_mode_step, make_ffio_error_reply, make_ffio_read_reply, open_options,
    open_refused_for_writes, open_refused_read_only, outcome_code, removal_step, ChangeModeStep,
    OpenOptionsPlan, RemovalStep, FS_ERROR, PATH_NOT_EXIST_ERROR, rename_outcome, rename_step, RenameStep, RENAMED,
    create_folder_step, directory_item_answer, CreateFolderStep,
};

#[test]
fn open_decisions() {
    assert!(open_refused_for_writes("w", false));
    assert!(open_refused_for_writes("r+", false));
    assert!(!open_refused_for_writes("rb", false));
    assert!(!open_refused_for_writes("w", true));
    assert!(open_refused_read_only("w", true, 0));
    assert!(!open_refused_read_only("w", true, 0x0100_0000));
    assert!(!open_refused_read_only("r", true, 0));
    assert_eq!(
        open_options("wb"),
        OpenOptionsPlan { read: false, write: true, truncate: true, create: true }
    );
    assert_eq!(
        open_options("a+"),
        OpenOptionsPlan { read: false, write: true, truncate: false, create: true }
    );
    assert_eq!(
        open_options("r"),
        OpenOptionsPlan { read: true, write: false, truncate: false, create: false }
    );
}

#[test]
fn removal_and_mode_decisions() {
    assert_eq!(removal_step(false, true, false, true, false), RemovalStep::Reply(PATH_NOT_EXIST_ERROR));
    assert_eq!(removal_step(true, true, true, true, false), RemovalStep::RenameAside);
    assert_eq!(removal_step(true, true, false, false, true), RemovalStep::RemoveDir);
    assert_eq!(removal_step(true, true, false, false, false), RemovalStep::Reply(FS_ERROR));
    assert_eq!(outcome_code(true), 0);
    assert_eq!(outcome_code(false), 0xFFF0_FFE0);
    assert_eq!(change_mode_step(true, false, true, true, true, false), ChangeModeStep::Reply(PATH_NOT_EXIST_ERROR));
    assert_eq!(change_mode_step(true, true, true, true, false, false), ChangeModeStep::Reply(FS_ERROR));
    assert_eq!(change_mode_step(true, true, true, false, false, true), ChangeModeStep::MarkFolder(false));
    assert_eq!(change_mode_step(true, true, true, false, false, false), ChangeModeStep::SetReadOnly(true));
}

#[test]
fn ffio_replies() {
    let err = make_ffio_error_reply(FS_ERROR);
    assert_eq!(err.len(), 36);
    assert_eq!(&err[0..8], &[0xC4, 0x00, 0xFE, 0x00, 0x20, 0xEF, 0xFE, 0x00]);
    assert_eq!(&err[32..36], &[0xFF, 0xF0, 0xFF, 0xE0]);
    let (reply, grown) = make_ffio_read_reply(&[1, 2, 3], 10, 6, 3, false);
    assert!(!grown);
    assert_eq!(&reply[0..8], &[0xC4, 0x00, 0x24, 0x02, 0xE8, 0xEF, 0x24, 0x02]);
    assert_eq!(&reply[32..36], &[0, 0, 0, 3]);
    assert_eq!(&reply[36..], &[1, 2, 3, 0xCD, 0xCD, 0xCD]);
    let (reply, grown) = make_ffio_read_reply(&[9; 8], 10, 6, 100, false);
    assert!(grown);
    assert_eq!(&reply[0..32], &[0u8; 32]);
    assert_eq!(&reply[32..36], &[0, 0, 0, 8]);
    assert_eq!(reply.len(), 44);
}

#[test]
fn rename_decisions() {
    assert_eq!(rename_step(false, true, true, (0, 0)), RenameStep::Reply(0xFFF0_FFE9));
    assert_eq!(rename_step(true, false, true, (0, 0)), RenameStep::Reply(0xFFF0_FFE9));
    assert_eq!(rename_step(true, true, false, (0x1000_00F5, 0x1000_00FF)), RenameStep::Reply(0xFFF0_FFE9));
    assert_eq!(rename_step(true, true, true, (0x1000_00F5, 0x1000_00FF)), RenameStep::Copy);
    assert_eq!(rename_step(true, true, true, (0x1000_00F5, 0x1000_00FE)), RenameStep::Rename);
    assert_eq!(rename_step(true, true, true, (0, 0)), RenameStep::Rename);
    assert_eq!(rename_outcome(true), RENAMED);
    assert_eq!(RENAMED, 0xFFF0_FFEA);
    assert_eq!(rename_outcome(false), 0xFFF0_FFE0);
}

#[test]
fn create_folder_decisions() {
    assert_eq!(create_folder_step(false, false, true, false), CreateFolderStep::Reply(0xFFF0_FFE0));
    assert_eq!(create_folder_step(true, true, false, false), CreateFolderStep::Reply(0xFFF0_FFE0));
    assert_eq!(create_folder_step(true, false, false, false), CreateFolderStep::Create);
    assert_eq!(create_folder_step(true, true, true, false), CreateFolderStep::Create);
    assert_eq!(create_folder_step(true, true, true, true), CreateFolderStep::Mark(true));
    assert_eq!(create_folder_step(true, false, false, true), CreateFolderStep::Mark(false));
}

#[test]
fn folder_entry_answers() {
    let info = || PCFSSataFdInfo::from_stat(true, false, false, 12, 0, 0);
    let listed = directory_item_answer(Some(info()), "file.txt".to_owned());
    assert_eq!(listed.return_code(), 0);
    let (got, name) = listed.take_file_info().expect("an entry");
    assert_eq!(name, "file.txt");
    assert_eq!(got.file_size(), Some(12));

    let unread = directory_item_answer(None, "file.txt".to_owned());
    assert_eq!(unread.return_code(), 0xFFF0_FFE0);
    assert!(unread.file_info().is_none());

    let long = directory_item_answer(Some(info()), "x".repeat(256));
    assert_eq!(long.return_code(), 0xFFF0_FFE0);
    assert!(long.file_info().is_none());
    assert_eq!(directory_item_answer(Some(info()), "x".repeat(255)).return_code(), 0);
}

#[test]
fn ffio_read_of_a_short_file() {
    let (reply, grown) = make_ffio_read_reply(&[0, 0], 4, 1000, 2, false);
    assert!(!grown);
    let mut expected = vec![0xC4, 0x00, 0x24, 0x02, 0xE8, 0xEF, 0x24, 0x02];
    expected.extend_from_slice(&[0; 0x18]);
    expected.extend_from_slice(&2_u32.to_be_bytes());
    expected.extend_from_slice(&[0x00, 0x00, 0xCD, 0xCD]);
    assert_eq!(reply, expected);
}
