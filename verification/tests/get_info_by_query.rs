use cat_dev::errors::NetworkParseError;
use cat_dev::fsemul::pcfs::errors::{PCFSApiError, SataProtocolError};
use cat_dev::fsemul::pcfs::sata::proto::get_info_by_query::{
    PCFSSataFdInfo, PCFSSataQueryResponse, PCFSSataQueryType, SataGetInfoByQueryPacketBody,
};

#[test]
fn query_types_to_and_fro() {
    for qt in vec![
        PCFSSataQueryType::FreeDiskSpace,
        PCFSSataQueryType::SizeOfFolder,
        PCFSSataQueryType::FileCount,
        PCFSSataQueryType::FileDetails,
    ] {
        assert_eq!(Ok(qt), PCFSSataQueryType::try_from(u32::from(qt)));
    }
}

#[test]
fn query_type_codes() {
    assert_eq!(u32::from(PCFSSataQueryType::FreeDiskSpace), 0);
    assert_eq!(u32::from(PCFSSataQueryType::SizeOfFolder), 1);
    assert_eq!(u32::from(PCFSSataQueryType::FileCount), 2);
    assert_eq!(u32::from(PCFSSataQueryType::FileDetails), 5);
    assert_eq!(
        PCFSSataQueryType::try_from(3),
        Err(SataProtocolError::UnknownGetInfoQueryType(3))
    );
}

#[test]
fn get_info_by_query_body_round_trip() {
    let body = SataGetInfoByQueryPacketBody::new("/%MLC_EMU_DIR/".to_owned(), PCFSSataQueryType::FileCount)
        .expect("short path");
    let bytes = body.to_bytes();
    assert_eq!(bytes.len(), 0x204);
    assert_eq!(&bytes[0..14], b"/%MLC_EMU_DIR/");
    assert!(bytes[14..0x200].iter().all(|b| *b == 0));
    assert_eq!(&bytes[0x200..0x204], &[0, 0, 0, 2]);
    let back = SataGetInfoByQueryPacketBody::try_from_bytes(&bytes).expect("reads back");
    assert_eq!(back.path(), "/%MLC_EMU_DIR/");
    assert_eq!(back.query_type(), PCFSSataQueryType::FileCount);
}

#[test]
fn get_info_by_query_refuses_long_path() {
    let long = "a".repeat(512);
    assert_eq!(
        SataGetInfoByQueryPacketBody::new(long.clone(), PCFSSataQueryType::FileCount).err(),
        Some(PCFSApiError::PathTooLong(long))
    );
}

#[test]
fn get_info_by_query_bad_sizes() {
    let short = vec![0u8; 10];
    assert!(matches!(
        SataGetInfoByQueryPacketBody::try_from_bytes(&short),
        Err(NetworkParseError::FieldNotLongEnough(_, _, 0x204, 10, _))
    ));
    let long = vec![0u8; 0x205];
    assert!(matches!(
        SataGetInfoByQueryPacketBody::try_from_bytes(&long),
        Err(NetworkParseError::UnexpectedTrailer(_, _))
    ));
}

#[test]
fn fd_info_round_trip() {
    let info = PCFSSataFdInfo::from_stat(true, false, false, 1307, 10, 20);
    assert!(info.is_file());
    assert!(!info.is_directory());
    assert_eq!(info.file_size(), Some(1307));
    assert_eq!(info.permissions(), 0x666);
    let bytes = info.to_bytes();
    assert_eq!(bytes.len(), 84);
    let back = PCFSSataFdInfo::try_from_bytes(&bytes).expect("reads back");
    assert_eq!(back.to_bytes(), bytes);
    assert_eq!(back.raw_created_timestamp(), info.raw_created_timestamp());
}

#[test]
fn query_responses() {
    let mut small = vec![0, 0, 0, 0, 0, 0, 0, 7];
    small.extend(vec![0u8; 80]);
    assert!(matches!(
        PCFSSataQueryResponse::try_from_small(&small),
        Ok(PCFSSataQueryResponse::SmallSize(7))
    ));
    let mut large = vec![0, 0, 0, 0, 0, 0, 0, 1, 0, 0, 0, 0];
    large.extend(vec![0u8; 76]);
    assert!(matches!(
        PCFSSataQueryResponse::try_from_large(&large),
        Ok(PCFSSataQueryResponse::LargeSize(0x1_0000_0000))
    ));
    let err = vec![0xFF, 0xF0, 0xFF, 0xE9, 0, 0, 0, 0];
    assert!(matches!(
        PCFSSataQueryResponse::try_from_small(&err),
        Err(NetworkParseError::ErrorCode(0xFFF0_FFE9))
    ));
    assert_eq!(PCFSSataQueryResponse::SmallSize(7).to_bytes(), small);
    assert_eq!(PCFSSataQueryResponse::LargeSize(0x1_0000_0000).to_bytes(), large);
}

#[test]
fn query_responses_too_short() {
    assert!(matches!(
        PCFSSataQueryResponse::try_from_small(&[0, 0, 0]),
        Err(NetworkParseError::NotEnoughData("PCFSSataQueryResponse", 4, 3, _))
    ));
    assert!(matches!(
        PCFSSataQueryResponse::try_from_small(&[0, 0, 0, 0, 0, 0, 7]),
        Err(NetworkParseError::NotEnoughData("PCFSSataQueryResponse", 8, 7, _))
    ));
    assert!(matches!(
        PCFSSataQueryResponse::try_from_large(&[0, 0, 0, 0, 0, 0, 0, 1]),
        Err(NetworkParseError::NotEnoughData("PCFSSataQueryResponse", 12, 8, _))
    ));
    assert!(matches!(
        PCFSSataQueryResponse::try_from_large(&[0xFF, 0xF0, 0xFF, 0xE9, 0]),
        Err(NetworkParseError::ErrorCode(0xFFF0_FFE9))
    ));
    assert!(matches!(
        PCFSSataQueryResponse::try_from_fd_info(&[]),
        Err(NetworkParseError::NotEnoughData("PCFSSataQueryResponse", 4, 0, _))
    ));
}
