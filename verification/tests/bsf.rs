use cat_dev::errors::FSError;
use cat_dev::fsemul::bsf::BootSystemFile;

#[test]
fn can_parse_boot_system_file() {
    // Taken from a real `ppc.bsf` in generated by real scripts.

    let file_contents = vec![
        0xFD, 0x9B, 0x5B, 0x7A, 0x00, 0x00, 0x00, 0x00, 0x20, 0x00, 0x80, 0x00, 0x20, 0x00, 0x88,
        0x00, 0x80, 0x00, 0x00, 0x00, 0x00, 0x00, 0x00, 0x00, 0x00, 0x00, 0x00, 0x00, 0x00, 0x00,
        0x00, 0x00,
    ];
    let file =
        BootSystemFile::try_from_bytes(&file_contents).expect("Failed to parse real life ppc.bsf");

    assert!(
        file.data_info().is_empty(),
        "Expected an empty data info list for Boot System File."
    );

    assert_eq!(
        file.header().platform_info_physical_address(),
        0x20008000,
        "Invalid Platform Info Physical Address from Boot System File.",
    );
    assert_eq!(
        file.header().package_info_physical_address(),
        0x20008800,
        "Invalid Package Info Physical Address from Boot System File.",
    );
    assert_eq!(
        file.header().boot1_flags(),
        0x80000000,
        "Invalid Boot1 Flags from Boot System File.",
    );
    assert_eq!(
        file.header().sticky_register_bits(),
        0,
        "Invalid Sticky Register Bits for Boot System File."
    );
}

#[test]
fn boot_system_file_round_trip() {
    let file_contents = vec![
        0xFD, 0x9B, 0x5B, 0x7A, 0x00, 0x00, 0x00, 0x00, 0x20, 0x00, 0x80, 0x00, 0x20, 0x00, 0x88,
        0x00, 0x80, 0x00, 0x00, 0x00, 0x00, 0x00, 0x00, 0x00, 0x00, 0x00, 0x00, 0x00, 0x00, 0x00,
        0x00, 0x00,
    ];
    let file = BootSystemFile::try_from_bytes(&file_contents).expect("parses");
    assert_eq!(file.to_bytes(), file_contents);
    let default = BootSystemFile::default();
    let again = BootSystemFile::try_from_bytes(&default.to_bytes()).expect("default parses");
    assert_eq!(again, default);
}

#[test]
fn boot_system_file_errors() {
    assert_eq!(
        BootSystemFile::try_from_bytes(&[0u8; 4]),
        Err(FSError::TooSmall(32, 4))
    );
    let mut bad_magic = vec![0u8; 32];
    bad_magic[0] = 1;
    assert!(matches!(
        BootSystemFile::try_from_bytes(&bad_magic),
        Err(FSError::InvalidFileMagic(0xFD9B_5B7A, 0x0100_0000))
    ));
    let big = vec![0u8; 1_048_577];
    assert!(matches!(
        BootSystemFile::try_from_bytes(&big),
        Err(FSError::TooLarge(1_048_576, 1_048_577))
    ));
}
