use cat_dev::fsemul::host_filesystem::{FilesystemLocation, ResolvedLocation};
use cat_dev::fsemul::pcfs::sata::proto::get_info_by_query::PCFSSataQueryResponse;
use cat_dev::fsemul::pcfs::sata::server::query_answers::{
    creates_missing_folder, disk_holding_path, disk_space_answer, file_count_answer,
    folder_size_answer, FOLDER_REQUIRED_ERROR, SIZE_TOO_BIG_ERROR,
};

fn paths(list: &[&str]) -> Vec<Vec<u8>> {
    list.iter().map(|p| p.as_bytes().to_vec()).collect()
}

fn location(closest: &str, exact: bool) -> FilesystemLocation {
    FilesystemLocation::new(closest.to_owned(), closest.to_owned(), exact)
}

#[test]
fn most_specific_mount_holds_a_path() {
    let mounts = paths(&["/", "/home", "/home/user/cafe2", "/home/"]);
    assert_eq!(disk_holding_path("/home/user/cafe".as_bytes(), &mounts, &mounts), Some(3));
    assert_eq!(disk_holding_path("/home".as_bytes(), &mounts, &mounts), Some(3));
    assert_eq!(disk_holding_path("/tmp".as_bytes(), &mounts, &mounts), Some(0));
    assert_eq!(disk_holding_path("/home/user/cafe2/x".as_bytes(), &mounts, &mounts), Some(2));
    assert_eq!(disk_holding_path("relative/path".as_bytes(), &mounts, &mounts), None);
    assert_eq!(disk_holding_path("/home".as_bytes(), &[], &[]), None);
}

#[test]
fn depth_is_taken_from_the_mount_as_named() {
    let canonical = paths(&["/data", "/data"]);
    let named = paths(&["/mnt/a/b", "/data"]);
    assert_eq!(disk_holding_path("/data/x".as_bytes(), &canonical, &named), Some(0));
}

#[test]
fn disk_space_answers() {
    let mounts = paths(&["/", "/home"]);
    let available = [10_u64, 20_u64];
    let home = ResolvedLocation::Filesystem(location("/home/user", true));
    assert!(matches!(
        disk_space_answer(&home, &mounts, &mounts, &available),
        PCFSSataQueryResponse::LargeSize(20)
    ));
    let elsewhere = ResolvedLocation::Filesystem(location("x/y", true));
    assert!(matches!(
        disk_space_answer(&elsewhere, &mounts, &mounts, &available),
        PCFSSataQueryResponse::ErrorCode(0xFFF0_FFE9)
    ));
    assert!(matches!(
        disk_space_answer(&ResolvedLocation::Network, &mounts, &mounts, &available),
        PCFSSataQueryResponse::ErrorCode(0xFFF0_FFE9)
    ));
}

#[test]
fn folder_sizes_add_up_and_saturate() {
    assert!(matches!(
        folder_size_answer(&location("/d", true), &[1, 2, 3]),
        PCFSSataQueryResponse::LargeSize(6)
    ));
    assert!(matches!(
        folder_size_answer(&location("/d", true), &[]),
        PCFSSataQueryResponse::LargeSize(0)
    ));
    assert!(matches!(
        folder_size_answer(&location("/d", true), &[u64::MAX - 1, 5, 7]),
        PCFSSataQueryResponse::LargeSize(u64::MAX)
    ));
    assert!(matches!(
        folder_size_answer(&location("/d", false), &[1]),
        PCFSSataQueryResponse::ErrorCode(0xFFF0_FFE9)
    ));
}

#[test]
fn file_counts() {
    let listed = [true, false, true, true];
    assert!(matches!(
        file_count_answer(&location("/d", true), true, Some(&listed[..])),
        PCFSSataQueryResponse::SmallSize(3)
    ));
    assert!(matches!(
        file_count_answer(&location("/d", true), true, Some(&[][..])),
        PCFSSataQueryResponse::SmallSize(0)
    ));
    assert!(matches!(
        file_count_answer(&location("/d", false), true, Some(&listed[..])),
        PCFSSataQueryResponse::ErrorCode(0xFFF0_FFE9)
    ));
    assert!(matches!(
        file_count_answer(&location("/d", true), false, Some(&listed[..])),
        PCFSSataQueryResponse::ErrorCode(e) if e == FOLDER_REQUIRED_ERROR
    ));
    assert!(matches!(
        file_count_answer(&location("/d", true), true, None),
        PCFSSataQueryResponse::ErrorCode(0xFFF0_FFE9)
    ));
    assert_eq!(FOLDER_REQUIRED_ERROR, 0xFFF0_FFD7);
    assert_eq!(SIZE_TOO_BIG_ERROR, 0xFFF0_FFE7);
}

#[test]
fn missing_folders_are_created_only_for_the_folder_creating_user() {
    assert!(creates_missing_folder((0x1000_00FC, 0x1000_00FF), true, false, false));
    assert!(!creates_missing_folder((0x1000_00FC, 0x1000_00FE), true, false, false));
    assert!(!creates_missing_folder((0x1000_00FC, 0x1000_00FF), false, false, false));
    assert!(!creates_missing_folder((0x1000_00FC, 0x1000_00FF), true, true, false));
    assert!(!creates_missing_folder((0x1000_00FC, 0x1000_00FF), true, false, true));
}
