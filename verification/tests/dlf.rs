use cat_dev::errors::FSError;
use cat_dev::fsemul::dlf::{AddressLookup, DiskLayoutFile, MAX_ADDRESS};
use cat_dev::fsemul::errors::{FSEmulAPIError, FSEmulFSError};

const MINIMAL: &[u8] = b"v1.00\r\n0x0000000000000000,\"\"\r\n";

fn three_files() -> Vec<u8> {
    b"v1.00\r\n0x0000000000000000,\"/opt/a.bin\"\r\n0x0000000000080000,\"/opt/cafe_sdk/temp/mythra/caferun/ppc.bsf\"\r\n0x00000000000A0000,\"\"\r\n"
        .to_vec()
}

#[test]
fn parses_minimal_file() {
    let dlf = DiskLayoutFile::try_from_bytes(MINIMAL).expect("minimal file parses");
    assert_eq!(dlf.major_version(), 1);
    assert_eq!(dlf.minor_version(), 0);
    assert_eq!(dlf.max_address(), 0);
    assert_eq!(dlf.version(), "v1.00");
    assert_eq!(dlf.to_bytes(), MINIMAL.to_vec());
    assert_eq!(
        dlf.lookup_address(0).resolve(None),
        Some((String::new(), 0))
    );
}

#[test]
fn parses_and_writes_back_real_layout() {
    let text = three_files();
    let dlf = DiskLayoutFile::try_from_bytes(&text).expect("parses");
    assert_eq!(dlf.max_address(), 0xA0000);
    let map = dlf.address_to_path_map();
    assert_eq!(map.len(), 3);
    assert_eq!(map.get(&0x80000).map(String::as_str), Some("/opt/cafe_sdk/temp/mythra/caferun/ppc.bsf"));
    assert_eq!(
        dlf.lookup_address(0x80000).resolve(None),
        Some(("/opt/cafe_sdk/temp/mythra/caferun/ppc.bsf".to_owned(), 0))
    );
    assert_eq!(dlf.to_bytes(), text);
}

#[test]
fn new_file_has_only_an_ending() {
    let dlf = DiskLayoutFile::new(0x1000);
    assert_eq!(
        dlf.to_bytes(),
        b"v1.00\r\n0x0000000000001000,\"\"\r\n".to_vec()
    );
    let back = DiskLayoutFile::try_from_bytes(&dlf.to_bytes()).expect("reads back");
    assert_eq!(back, dlf);
}

#[test]
fn wide_addresses_are_written_in_full() {
    let dlf = DiskLayoutFile::new(0x1_0000_0000_0000_0000);
    assert_eq!(
        dlf.to_bytes(),
        b"v1.00\r\n0x10000000000000000,\"\"\r\n".to_vec()
    );
}

#[test]
fn lenient_reading() {
    let text = b"vv2.7\r\n0x0x1f,\"\"/abs/path\"\"\r\n0X20,\"\"\r\n".to_vec();
    let parsed = DiskLayoutFile::try_from_bytes(&text);
    // `0X20` is not a hexadecimal number once `0x` prefixes are trimmed.
    assert!(matches!(
        parsed,
        Err(FSError::FSEmul(FSEmulFSError::DlfCorruptLine(ref l))) if l == "0X20,\"\""
    ));
    let text = b"vv2.7\r\n0x0x1f,\"\"/abs/path\"\"\r\n0x+20,\"\"\r\n".to_vec();
    let dlf = DiskLayoutFile::try_from_bytes(&text).expect("lenient file parses");
    assert_eq!(dlf.major_version(), 2);
    assert_eq!(dlf.minor_version(), 7);
    assert_eq!(dlf.version(), "v2.07");
    assert_eq!(dlf.max_address(), 0x20);
    assert_eq!(
        dlf.lookup_address(0x1f),
        AddressLookup::Exact("/abs/path".to_owned())
    );
}

#[test]
fn parse_errors() {
    assert!(matches!(
        DiskLayoutFile::try_from_bytes(&[0xFF, 0xFE]),
        Err(FSError::Utf8Expected(_))
    ));
    assert_eq!(
        DiskLayoutFile::try_from_bytes(b"v1.00\r\n"),
        Err(FSError::TooFewLines(2, 3))
    );
    assert_eq!(
        DiskLayoutFile::try_from_bytes(b"v1.00\r\n0x10,\"relative\"\r\n0x20,\"\"\r\n"),
        Err(FSError::FSEmul(FSEmulFSError::DlfCorruptLine("0x10,\"relative\"".to_owned())))
    );
    assert_eq!(
        DiskLayoutFile::try_from_bytes(b"v1.00\r\n0x10,\"/a\"\r\n0x08,\"/b\"\r\n0x20,\"\"\r\n"),
        Err(FSError::FSEmul(FSEmulFSError::DlfCorruptLine("0x08,\"/b\"".to_owned())))
    );
    assert_eq!(
        DiskLayoutFile::try_from_bytes(b"v1.00\r\n0x10,\"/a\"\r\n0x20,\"/b\"\r\n"),
        Err(FSError::FSEmul(FSEmulFSError::DlfCorruptLine("0x20,\"/b\"".to_owned())))
    );
    assert_eq!(
        DiskLayoutFile::try_from_bytes(b"v1.00\r\n0x20,\"\"\r\nextra"),
        Err(FSError::FSEmul(FSEmulFSError::DlfCorruptFinalLine("extra".to_owned())))
    );
    assert_eq!(
        DiskLayoutFile::try_from_bytes(b"1.00\r\n0x20,\"\"\r\n"),
        Err(FSError::FSEmul(FSEmulFSError::DlfCorruptVersionLine("1.00".to_owned())))
    );
    assert_eq!(
        DiskLayoutFile::try_from_bytes(b"v1.256\r\n0x20,\"\"\r\n"),
        Err(FSError::FSEmul(FSEmulFSError::DlfCorruptVersionLine("v1.256".to_owned())))
    );
}

#[test]
fn zero_addresses_collapse() {
    let dlf = DiskLayoutFile::try_from_bytes(b"v1.00\r\n0x0,\"/a\"\r\n0x0,\"/b\"\r\n0x0,\"\"\r\n")
        .expect("repeated zero addresses are accepted");
    assert_eq!(dlf.address_to_path_map().len(), 1);
    assert_eq!(dlf.to_bytes(), MINIMAL.to_vec());
}

#[test]
fn upsert_then_lookup_and_remove() {
    let mut dlf = DiskLayoutFile::new(0x1000);
    assert_eq!(dlf.check_upsert_address(0x10, false), Ok(()));
    assert_eq!(dlf.upsert_addressed_path(0x10, "/data/file.bin".to_owned()), Ok(()));
    assert_eq!(
        dlf.lookup_address(0x10),
        AddressLookup::Exact("/data/file.bin".to_owned())
    );
    assert_eq!(
        dlf.lookup_address(0x18),
        AddressLookup::Within("/data/file.bin".to_owned(), 8)
    );
    assert_eq!(
        dlf.lookup_address(0x18).resolve(Some(9)),
        Some(("/data/file.bin".to_owned(), 8))
    );
    assert_eq!(dlf.lookup_address(0x18).resolve(Some(8)), None);
    assert_eq!(dlf.lookup_address(0x18).resolve(None), None);
    assert_eq!(dlf.lookup_address(0x2000), AddressLookup::Outside);
    assert_eq!(
        dlf.to_bytes(),
        b"v1.00\r\n0x0000000000000010,\"/data/file.bin\"\r\n0x0000000000001000,\"\"\r\n".to_vec()
    );
    let before = DiskLayoutFile::new(0x1000);
    assert_eq!(dlf.remove_path_at_address(0x10), Ok(()));
    assert_eq!(dlf, before);
}

#[test]
fn below_first_entry_counts_from_zero_with_ending_path() {
    let mut dlf = DiskLayoutFile::new(0x1000);
    dlf.upsert_addressed_path(0x100, "/x".to_owned()).expect("stored");
    assert_eq!(dlf.lookup_address(0x20), AddressLookup::Within(String::new(), 0x20));
}

#[test]
fn upsert_errors() {
    let mut dlf = DiskLayoutFile::new(0x1000);
    let before = dlf.clone();
    assert_eq!(
        dlf.upsert_addressed_path(MAX_ADDRESS, "/x".to_owned()),
        Err(FSEmulAPIError::DlfAddressTooLarge(MAX_ADDRESS, MAX_ADDRESS))
    );
    assert_eq!(
        dlf.upsert_addressed_path(0x2000, "/x".to_owned()),
        Err(FSEmulAPIError::DlfUpsertEndingFirst)
    );
    assert_eq!(dlf, before);
    assert_eq!(dlf.upsert_addressed_path(0x2000, String::new()), Ok(()));
    assert_eq!(dlf.max_address(), 0x2000);
    assert_eq!(
        dlf.remove_path_at_address(0x2000),
        Err(FSEmulAPIError::DlfMustHaveEnding)
    );
    assert_eq!(dlf.remove_path_at_address(0x1000), Ok(()));
    assert_eq!(dlf.address_to_path_map().len(), 1);
}
