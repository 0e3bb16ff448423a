use cat_dev::fsemul::pcfs::sata::proto::location::MoveToFileLocation;
use cat_dev::fsemul::pcfs::sata::proto::read_file::SataReadFilePacketBody;
use cat_dev::fsemul::pcfs::sata::proto::remove::SataRemovePacketBody;
use cat_dev::fsemul::pcfs::sata::proto::get_info_by_query::{
    PCFSSataFdInfo, PCFSSataQueryResponse, PCFSSataQueryType,
};
use cat_dev::fsemul::pcfs::sata::server::wal::{StreamLog, WaitingRequest, WaitingResponse};
use cat_dev::fsemul::pcfs::sata::server::wal_lines::{request_line, response_line, write_data_line};

#[test]
fn responses_answer_requests_in_order() {
    let mut log = StreamLog::new();
    assert_eq!(log.take_waiting(), None);
    log.record_request(WaitingRequest::OpenFile("/a".to_owned(), "r".to_owned()));
    log.record_request(WaitingRequest::Remove("/b".to_owned()));
    assert_eq!(log.take_waiting(), Some(WaitingRequest::OpenFile("/a".to_owned(), "r".to_owned())));
    assert_eq!(log.take_waiting(), Some(WaitingRequest::Remove("/b".to_owned())));
    assert_eq!(log.take_waiting(), None);
}

#[test]
fn opened_handles_are_known_until_closed() {
    let mut log = StreamLog::new();
    let open = WaitingRequest::OpenFile("/a".to_owned(), "r".to_owned());
    log.record_response(&open, &WaitingResponse::OpenFile(Ok(5)));
    assert_eq!(log.file_path(5), Some("/a".to_owned()));
    log.record_response(&open, &WaitingResponse::OpenFile(Err(0xFFF0_FFE0)));
    assert_eq!(log.file_path(5), Some("/a".to_owned()));
    let reopen = WaitingRequest::OpenFile("/c".to_owned(), "w".to_owned());
    log.record_response(&reopen, &WaitingResponse::OpenFile(Ok(5)));
    assert_eq!(log.file_path(5), Some("/c".to_owned()));
    let close = WaitingRequest::CloseFile(5, "/c".to_owned());
    log.record_response(&close, &WaitingResponse::CloseFile(0xFFF0_FFE0));
    assert_eq!(log.file_path(5), Some("/c".to_owned()));
    log.record_response(&close, &WaitingResponse::CloseFile(0));
    assert_eq!(log.file_path(5), None);

    let folder = WaitingRequest::OpenFolder("/d".to_owned());
    log.record_response(&folder, &WaitingResponse::OpenFolder(Ok(7)));
    assert_eq!(log.folder_path(7), Some("/d".to_owned()));
    assert_eq!(log.file_path(7), None);
    log.record_response(&WaitingRequest::CloseFolder(7, "/d".to_owned()), &WaitingResponse::CloseFolder(0));
    assert_eq!(log.folder_path(7), None);
}

#[test]
fn pongs_set_the_connection_flags() {
    let mut log = StreamLog::new();
    assert!(log.ffio_enabled() && log.csr_enabled());
    log.record_response(&WaitingRequest::Ping(true, true, 1, 2), &WaitingResponse::Pong(false, true));
    assert!(!log.ffio_enabled());
    assert!(log.csr_enabled());
}

#[test]
fn write_data_belongs_to_the_waiting_write() {
    let mut log = StreamLog::new();
    assert!(!log.write_data_matches(3));
    log.record_response(
        &WaitingRequest::OpenFile("/f".to_owned(), "w".to_owned()),
        &WaitingResponse::OpenFile(Ok(3)),
    );
    log.record_request(WaitingRequest::WriteFile("/f".to_owned(), Some(MoveToFileLocation::End)));
    assert!(log.write_data_matches(3));
    assert!(!log.write_data_matches(4));
    let mut unknown = StreamLog::new();
    unknown.record_request(WaitingRequest::WriteFile("<Unknown 9>".to_owned(), None));
    assert!(unknown.write_data_matches(9));
    assert!(!unknown.write_data_matches(8));
    unknown.take_waiting();
    unknown.record_request(WaitingRequest::StatFile("/f".to_owned()));
    assert!(!unknown.write_data_matches(9));
}

/// A packet: a header of 0x20 bytes, then `body`.
fn framed(body: &[u8]) -> Vec<u8> {
    let mut p = vec![0xEE; 0x20];
    p.extend_from_slice(body);
    p
}

#[test]
fn requests_are_read_from_their_bodies() {
    let mut log = StreamLog::new();
    log.record_response(
        &WaitingRequest::OpenFolder("/dir".to_owned()),
        &WaitingResponse::OpenFolder(Ok(4)),
    );
    assert_eq!(
        log.request_of(&framed(&4_i32.to_be_bytes()), 0x02, &4_i32.to_be_bytes(), (false, false), (0, 0)),
        WaitingRequest::ReadFolder("/dir".to_owned())
    );
    assert_eq!(
        log.request_of(&framed(&(-3_i32).to_be_bytes()), 0x02, &(-3_i32).to_be_bytes(), (false, false), (0, 0)),
        WaitingRequest::ReadFolder("<Unknown; -3>".to_owned())
    );
    assert_eq!(
        log.request_of(&framed(&4_i32.to_be_bytes()), 0x04, &4_i32.to_be_bytes(), (false, false), (0, 0)),
        WaitingRequest::CloseFolder(4, "/dir".to_owned())
    );
    let read = SataReadFilePacketBody::new(2, 0x200, 7, Some(MoveToFileLocation::Begin)).to_bytes();
    assert_eq!(
        log.request_of(&framed(&read), 0x06, &read, (false, false), (0, 0)),
        WaitingRequest::ReadFile("<Unknown 7>".to_owned(), Some(MoveToFileLocation::Begin), 0x400)
    );
    let remove = SataRemovePacketBody::new("/%SLC_EMU_DIR/x".to_owned()).expect("short").to_bytes();
    assert_eq!(
        log.request_of(&framed(&remove), 0x0E, &remove, (false, false), (0, 0)),
        WaitingRequest::Remove("/%SLC_EMU_DIR/x".to_owned())
    );
    assert_eq!(
        log.request_of(&framed(&[]), 0x14, &[], (true, false), (5, 6)),
        WaitingRequest::Ping(true, false, 5, 6)
    );
    assert_eq!(
        log.request_of(&framed(&[1]), 0x14, &[1], (true, false), (5, 6)),
        WaitingRequest::Unknown(framed(&[1]))
    );
    assert_eq!(
        log.request_of(&framed(&[9, 9]), 0x01, &[9, 9], (true, true), (0, 0)),
        WaitingRequest::Unknown(framed(&[9, 9]))
    );
}

/// A response: a header of 0x20 bytes, then `body`.
fn answered(body: &[u8]) -> Vec<u8> {
    let mut p = vec![0x11; 0x20];
    p.extend_from_slice(body);
    p
}

#[test]
fn responses_are_read_for_their_requests() {
    let log = StreamLog::new();
    let create = WaitingRequest::CreateFolder("/d".to_owned(), true);
    assert!(matches!(
        log.response_of(&create, &answered(&[0xFF, 0xF0, 0xFF, 0xE0])),
        WaitingResponse::CreateFolder(0xFFF0_FFE0)
    ));
    let short = answered(&[0, 0, 0]);
    match log.response_of(&create, &short) {
        WaitingResponse::Unknown(d) => assert_eq!(d, short),
        other => panic!("{other:?}"),
    }
    match log.response_of(&create, &[0, 0, 0, 0]) {
        WaitingResponse::Unknown(d) => assert_eq!(d, vec![0, 0, 0, 0]),
        other => panic!("{other:?}"),
    }
    let open = WaitingRequest::OpenFile("/f".to_owned(), "r".to_owned());
    assert!(matches!(
        log.response_of(&open, &answered(&[0, 0, 0, 0, 0, 0, 0, 5])),
        WaitingResponse::OpenFile(Ok(5))
    ));
    assert!(matches!(
        log.response_of(&open, &answered(&[0xFF, 0xF0, 0xFF, 0xE9, 0, 0, 0, 0])),
        WaitingResponse::OpenFile(Err(0xFFF0_FFE9))
    ));
    let ping = WaitingRequest::Ping(true, true, 0, 0);
    assert!(matches!(
        log.response_of(&ping, &answered(&[0, 0, 0, 0, 0xCA, 0xFE, 0, 1])),
        WaitingResponse::Pong(true, false)
    ));
    let count = WaitingRequest::QueryPath(PCFSSataQueryType::FileCount, "/d".to_owned());
    assert!(matches!(
        log.response_of(&count, &answered(&[0, 0, 0, 0, 0, 0, 0, 7])),
        WaitingResponse::QueryPath(Ok(PCFSSataQueryResponse::SmallSize(7)))
    ));
    assert!(matches!(
        log.response_of(&count, &answered(&[0xFF, 0xF0, 0xFF, 0xE9])),
        WaitingResponse::QueryPath(Err(0xFFF0_FFE9))
    ));
    let stat = WaitingRequest::StatFile("/f".to_owned());
    let info = PCFSSataFdInfo::from_stat(true, false, false, 1307, 0, 0);
    let mut details = vec![0, 0, 0, 0];
    details.extend(info.to_bytes());
    match log.response_of(&stat, &answered(&details)) {
        WaitingResponse::StatFile(Ok(got)) => assert_eq!(got, info),
        other => panic!("{other:?}"),
    }
    assert!(matches!(
        log.response_of(&stat, &answered(&[0xFF, 0xF0, 0xFF, 0xE9])),
        WaitingResponse::StatFile(Err(0xFFF0_FFE9))
    ));
    let folder = WaitingRequest::ReadFolder("/d".to_owned());
    assert!(matches!(
        log.response_of(&folder, &answered(&[0xFF, 0xF0, 0xFF, 0xFC])),
        WaitingResponse::ReadFolder(0xFFF0_FFFC, None)
    ));
    match log.response_of(&WaitingRequest::Unknown(vec![1]), &answered(&[0, 0, 0, 0])) {
        WaitingResponse::Unknown(d) => assert_eq!(d, answered(&[0, 0, 0, 0])),
        other => panic!("{other:?}"),
    }
}

#[test]
fn fast_reads_are_checksummed() {
    let log = StreamLog::new();
    let read = WaitingRequest::ReadFile("/f".to_owned(), None, 0x100);
    let response = answered(&[0, 0, 1, 0, 9, 9]);
    let mut expected: u64 = 69420;
    for b in &response {
        expected = (expected ^ u64::from(*b)).wrapping_mul(0x100000001b3);
    }
    assert_ne!(expected, 69420);
    match log.response_of(&read, &response) {
        WaitingResponse::ReadFile(Ok((size, len, header, chk))) => {
            assert_eq!(size, 0x100);
            assert_eq!(len, 0x26);
            assert_eq!(header, vec![0x11; 0x20]);
            assert_eq!(chk, expected);
        },
        other => panic!("{other:?}"),
    }
    match log.response_of(&read, &answered(&[0, 0, 1])) {
        WaitingResponse::Unknown(d) => assert_eq!(d, answered(&[0, 0, 1])),
        other => panic!("{other:?}"),
    }
}

#[test]
fn request_lines() {
    assert_eq!(
        request_line(&WaitingRequest::CreateFolder("/a".to_owned(), true)),
        "->CreateFolder {path=/a,mode=0666}\n"
    );
    assert_eq!(
        request_line(&WaitingRequest::ReadFile("/f".to_owned(), Some(MoveToFileLocation::Begin), 1024)),
        "->ReadFile     {path=/f,move_to=Begin,total_size=1024}\n"
    );
    assert_eq!(
        request_line(&WaitingRequest::WriteFile("/f".to_owned(), None)),
        "->WriteFile    {path=/f,move_to=Nowhere}\n"
    );
    assert_eq!(
        request_line(&WaitingRequest::QueryPath(PCFSSataQueryType::SizeOfFolder, "/d".to_owned())),
        "->QueryPath    {path=/d,query_type=Size of Folder}\n"
    );
    assert_eq!(
        request_line(&WaitingRequest::ChangeOwner("/d".to_owned(), 7, 42)),
        "->ChangeOwner  {path=/d,uid=7,gid=42}\n"
    );
    assert_eq!(
        request_line(&WaitingRequest::Ping(true, false, 5, 6)),
        "->Ping         {supports_ffio=true,supports_csr=false,first_read_size=5,first_write_size=6}\n"
    );
    assert_eq!(
        request_line(&WaitingRequest::Unknown(vec![0x41, 0x0A, 0xFF, 0x22, 0])),
        "->Unknown      {data=b\"A\\n\\xff\\\"\\0\"}\n"
    );
    assert_eq!(write_data_line(12), "  ->12\n");
}

#[test]
fn response_lines() {
    assert_eq!(
        response_line(&WaitingResponse::Remove(0xFFF0_FFE0)),
        "<-          RC {return_code=0xfff0ffe0}\n"
    );
    assert_eq!(response_line(&WaitingResponse::OpenFile(Ok(-5))), "<-       FDRES {response=fd=-5}\n");
    assert_eq!(
        response_line(&WaitingResponse::ReadFolder(0xFFF0_FFFC, None)),
        "<- Folder Item {rc=0xfff0fffc,next_item=<None>}\n"
    );
    assert_eq!(
        response_line(&WaitingResponse::ReadFolder(0, Some("cafe.bat".to_owned()))),
        "<- Folder Item {rc=0x00000000,next_item=cafe.bat}\n"
    );
    assert_eq!(
        response_line(&WaitingResponse::StatFile(Ok(PCFSSataFdInfo::from_stat(true, false, false, 1307, 0, 0)))),
        "<-        STAT {file_or_folder_flags=2c000000,perms=666,file_length=1307}\n"
    );
    assert_eq!(
        response_line(&WaitingResponse::QueryPath(Ok(PCFSSataQueryResponse::SmallSize(7)))),
        "<-       QUERY {response=SM:7}\n"
    );
    assert_eq!(
        response_line(&WaitingResponse::QueryPath(Ok(PCFSSataQueryResponse::ErrorCode(3)))),
        "<-       QUERY {response=ERROR:3}\n"
    );
    assert_eq!(
        response_line(&WaitingResponse::QueryPath(Ok(PCFSSataQueryResponse::FDInfo(
            PCFSSataFdInfo::from_stat(false, true, true, 9, 0, 0)
        )))),
        "<-       QUERY {response=INFO:flags=ac000000:perms=444:file_length=0}\n"
    );
    assert_eq!(
        response_line(&WaitingResponse::Pong(true, false)),
        "<-        PONG {ffio_enabled=true,combined_send_recv_enabled=false}\n"
    );
    assert_eq!(
        response_line(&WaitingResponse::ReadFile(Ok((256, 0x24, vec![0x41, 1], 0xA)))),
        "<-        READ {chk=0a,file_size=256,packet_len=36,header=b\"A\\x01\"}\n"
    );
    assert_eq!(
        response_line(&WaitingResponse::Unknown(vec![0x7E, 0x7F])),
        "<-     Unknown {data=b\"~\\x7f\"}\n"
    );
}
