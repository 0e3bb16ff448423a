use cat_dev::fsemul::host_filesystem::{
    access_allowed, copied_link_target, entry_name_of, rebased_path, removal_aside_path, firmware_file_path, is_network_request, lowered_title_dir, mapped_path,
    resolve_canonical,
    slc_path_for, FilesystemLocation, ResolvedLocation,
};
use cat_dev::fsemul::host_filesystem as host;
use cat_dev::fsemul::pcfs::errors::PCFSApiError;

fn mapped(cafe: &str, requested: &str) -> String {
    String::from_utf8(mapped_path(cafe.as_bytes(), requested)).expect("ASCII test paths")
}

#[test]
fn emulated_directories_map_under_data() {
    for (dir, name) in [
        ("/%MLC_EMU_DIR", "mlc"),
        ("/%SLC_EMU_DIR", "slc"),
        ("/%DISC_EMU_DIR", "disc"),
        ("/%SAVE_EMU_DIR", "save"),
    ] {
        assert_eq!(mapped("/opt/cafe", dir), format!("/opt/cafe/data/{name}/"));
        assert_eq!(mapped("/opt/cafe", &format!("{dir}/")), format!("/opt/cafe/data/{name}/"));
        assert_eq!(mapped("/opt/cafe", &format!("{dir}/./")), format!("/opt/cafe/data/{name}/./"));
        assert_eq!(
            mapped("/opt/cafe", &format!("{dir}/../{name}")),
            format!("/opt/cafe/data/{name}/../{name}")
        );
    }
}

#[test]
fn prefixes_and_separators() {
    assert_eq!(mapped("/opt/cafe", "/vol/pc/%SLC_EMU_DIR/sys/title"), "/opt/cafe/data/slc/sys/title");
    assert_eq!(mapped("/opt/cafe/", "/%MLC_EMU_DIR"), "/opt/cafe/data/mlc/");
    assert_eq!(mapped("/opt/cafe", "/%DISC_EMU_DIR\\a\\b"), "/opt/cafe/data/disc/a/b");
    assert_eq!(mapped("/opt/cafe", "/vol/pc/vol/pc/%MLC_EMU_DIRx"), "/opt/cafe/data/mlc/x");
    assert_eq!(mapped("/opt/cafe", "/other/path"), "/other/path");
    assert!(is_network_request("/vol/pc/%NETWORK/share"));
    assert!(!is_network_request("/%MLC_EMU_DIR/share"));
}

#[test]
fn filesystem_locations() {
    let location = FilesystemLocation::new("/a/b".to_owned(), "/a".to_owned(), false);
    assert_eq!(location.resolved_path(), "/a/b");
    assert_eq!(location.closest_resolved_path(), "/a");
    assert!(!location.canonicalized_is_exact());
    let resolved = ResolvedLocation::Filesystem(location.clone());
    assert_eq!(resolved, ResolvedLocation::Filesystem(location));
    assert_ne!(resolved, ResolvedLocation::Network);
}

#[test]
fn path_allows_writes() {
    let cafe = "/tmp/cafe".as_bytes();
    assert!(host::path_allows_writes(cafe, "/vol/pc/%MLC_EMU_DIR/".as_bytes()));
    assert!(host::path_allows_writes(cafe, "/vol/pc/%SLC_EMU_DIR/".as_bytes()));
    assert!(host::path_allows_writes(cafe, "/vol/pc/%SAVE_EMU_DIR/".as_bytes()));
    assert!(!host::path_allows_writes(cafe, "/vol/pc/%DISC_EMU_DIR/".as_bytes()));
    assert!(!host::path_allows_writes(cafe, "/vol/pc/%DISC_EMU_DIR/".as_bytes()));
}

#[test]
fn disc_directory_refuses_writes_by_component() {
    let cafe = "/tmp/cafe".as_bytes();
    assert!(!host::path_allows_writes(cafe, "/tmp/cafe/data/disc".as_bytes()));
    assert!(!host::path_allows_writes(cafe, "/tmp/cafe/data/disc/".as_bytes()));
    assert!(!host::path_allows_writes(cafe, "/tmp/cafe/data/disc/content/a.rpx".as_bytes()));
    assert!(!host::path_allows_writes(cafe, "/tmp//cafe/./data/disc/x".as_bytes()));
    assert!(host::path_allows_writes(cafe, "/tmp/cafe/data/discs/x".as_bytes()));
    assert!(host::path_allows_writes(cafe, "/tmp/cafe/data/mlc/x".as_bytes()));
    assert!(host::path_allows_writes(cafe, "tmp/cafe/data/disc/x".as_bytes()));
    assert!(host::path_allows_writes(cafe, "/tmp/cafe/data/../data/disc/x".as_bytes()));
    assert!(!host::path_allows_writes("/tmp/cafe/".as_bytes(), "/tmp/cafe/data/disc/x".as_bytes()));
}

#[test]
fn slc_paths_use_lowercase_padded_title_ids() {
    assert_eq!(
        String::from_utf8(slc_path_for("/tmp/cafe".as_bytes(), (0xABCD_EF01, 0x2))).expect("ASCII"),
        "/tmp/cafe/data/slc/sys/title/abcdef01/00000002"
    );
    assert_eq!(
        String::from_utf8(firmware_file_path("/tmp/cafe".as_bytes())).expect("ASCII"),
        "/tmp/cafe/data/slc/sys/title/00050010/1000400a/code/fw.img"
    );
}

#[test]
fn resolving_against_the_canonical_sdk_directory() {
    let inside = resolve_canonical(
        "/%MLC_EMU_DIR/new.txt",
        "/tmp/cafe",
        "/tmp/cafe/data/mlc/new.txt".to_owned(),
        "/tmp/cafe/data/mlc".to_owned(),
        true,
        "/tmp/cafe",
    );
    assert_eq!(
        inside,
        Ok(ResolvedLocation::Filesystem(FilesystemLocation::new(
            "/tmp/cafe/data/mlc/new.txt".to_owned(),
            "/tmp/cafe/data/mlc".to_owned(),
            false,
        )))
    );
    assert!(resolve_canonical(
        "/%MLC_EMU_DIR",
        "/tmp/cafe",
        "/tmp/cafe/data/mlc/".to_owned(),
        "/tmp/cafe".to_owned(),
        false,
        "/tmp/cafe/"
    )
    .is_ok());
    assert_eq!(
        resolve_canonical("/vol/pc/vol/pc/elsewhere", "/tmp/cafe", "/elsewhere".to_owned(), "/".to_owned(), true, "/tmp/cafe"),
        Err(PCFSApiError::PathNotMapped("/elsewhere".to_owned()))
    );
    assert_eq!(
        resolve_canonical("/%MLC_EMU_DIR/../../../", "/tmp/cafe", "/tmp/cafe/data/mlc/../../../".to_owned(), "/tmp/cafeteria".to_owned(), true, "/tmp/cafe"),
        Err(PCFSApiError::PathNotMapped("/%MLC_EMU_DIR/../../../".to_owned()))
    );
    assert_eq!(
        resolve_canonical(
            "/%MLC_EMU_DIR/missing/../../../../tmp",
            "/tmp/cafe",
            "/tmp/cafe/data/mlc/missing/../../../../tmp".to_owned(),
            "/tmp/cafe/data/mlc".to_owned(),
            true,
            "/tmp/cafe",
        ),
        Err(PCFSApiError::PathNotMapped("/%MLC_EMU_DIR/missing/../../../../tmp".to_owned()))
    );
    assert!(resolve_canonical(
        "/%MLC_EMU_DIR/missing/../other",
        "/tmp/cafe",
        "/tmp/cafe/data/mlc/missing/../other".to_owned(),
        "/tmp/cafe/data/mlc".to_owned(),
        true,
        "/tmp/cafe",
    )
    .is_ok());
    assert!(resolve_canonical(
        "/%MLC_EMU_DIR/x",
        "/home/me/cafe-link",
        "/home/me/cafe-link/data/mlc/x".to_owned(),
        "/srv/cafe/data/mlc".to_owned(),
        true,
        "/srv/cafe",
    )
    .is_ok());
    assert_eq!(
        resolve_canonical("nowhere", "/tmp/cafe", "nowhere".to_owned(), String::new(), true, "/tmp/cafe"),
        Err(PCFSApiError::PathNotMapped("nowhere".to_owned()))
    );
}

#[test]
fn handles_belong_to_their_stream() {
    assert!(access_allowed(None, Some(1)));
    assert!(access_allowed(Some(1), None));
    assert!(access_allowed(None, None));
    assert!(access_allowed(Some(7), Some(7)));
    assert!(!access_allowed(Some(7), Some(8)));
}

#[test]
fn title_directories_move_to_lower_case() {
    let moved = |cafe: &str, path: &str| {
        lowered_title_dir(cafe.as_bytes(), path.as_bytes()).map(|p| String::from_utf8(p).expect("ASCII"))
    };
    assert_eq!(
        moved("/c", "/c/data/slc/sys/title/0005000A"),
        Some("/c/data/slc/sys/title/0005000a".to_owned())
    );
    assert_eq!(moved("/c", "/c/data/slc/sys/title/0005000a"), None);
    assert_eq!(moved("/C", "/C/X"), Some("/C/x".to_owned()));
    assert_eq!(moved("/c", "/c/c/AB"), Some("/c/ab".to_owned()));
    assert_eq!(moved("/c", "/d/AB"), Some("/c/d/ab".to_owned()));
}

#[test]
fn folder_entries_are_named_below_their_folder() {
    let name = |item: &str, skip: usize| String::from_utf8(entry_name_of(item.as_bytes(), skip)).expect("ASCII");
    assert_eq!(name("/a/b/c/d", 3), "c/d");
    assert_eq!(name("/a/b//c/./d/", 3), "c/d");
    assert_eq!(name("/a/b/c/d", 0), "/a/b/c/d");
    assert_eq!(name("/a/b/c/d", 4), "d");
    assert_eq!(name("/a/b/c/d", 9), "");
    assert_eq!(name("./x/y", 1), "x/y");
}

#[test]
fn removals_that_only_rename_move_beside_the_path() {
    let aside = |p: &str, is_file: bool| String::from_utf8(removal_aside_path(p.as_bytes(), is_file)).expect("ASCII");
    assert_eq!(aside("/tmp/a/b/c", false), "/tmp/a/b/c.rm");
    assert_eq!(aside("/tmp/a/b/c/", false), "/tmp/a/b/c.rm");
    assert_eq!(aside("/t/x.txt", true), "/t/x.txt.rm");
    assert_eq!(aside("/t/..", true), "/t/.rm");
    assert_eq!(aside("/t/..", false), "/t/...rm");
    assert_eq!(aside("rel", true), "rel.rm");
    assert_eq!(aside("/", false), "/.rm");
    assert_eq!(aside("", true), ".rm");
}

#[test]
fn copied_trees_land_under_the_destination() {
    let s = |v: Vec<u8>| String::from_utf8(v).expect("ASCII");
    assert_eq!(s(rebased_path(b"/src/tool/code/a.rpx", b"/src/tool", b"/sdk/disc")), "/sdk/disc/code/a.rpx");
    assert_eq!(s(rebased_path(b"/src/tool", b"/src/tool", b"/sdk/disc")), "/sdk/disc");
    assert_eq!(
        s(copied_link_target(b"/src/tool/meta", b"/src/tool", b"/sdk/disc")),
        "/sdk/disc/meta"
    );
    assert_eq!(
        s(copied_link_target(b"/elsewhere/x", b"/src/tool", b"/sdk/disc")),
        "/elsewhere/x"
    );
}
