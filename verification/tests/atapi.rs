use cat_dev::fsemul::atapi::proto::{
    pad_read_reply, parse_read_request, read_amount, ChunkATAPIEmulatorCodec,
    ClientChunkedATAPIEmulatorCode,
};
use cat_dev::fsemul::errors::ATAPIProtocolError;

#[test]
fn server_framing_takes_twelve_bytes() {
    let codec = ChunkATAPIEmulatorCodec;
    let mut src: Vec<u8> = (0u8..15).collect();
    assert_eq!(codec.decode(&mut src), Some((0u8..12).collect::<Vec<u8>>()));
    assert_eq!(src, vec![12, 13, 14]);
    assert_eq!(codec.decode(&mut src), None);
    assert_eq!(src, vec![12, 13, 14]);
    let mut dst = vec![1];
    codec.encode(&[2, 3], &mut dst);
    assert_eq!(dst, vec![1, 2, 3]);
}

#[test]
fn client_framing() {
    let codec = ClientChunkedATAPIEmulatorCode;
    let mut src = vec![1, 2, 3];
    assert_eq!(codec.decode(&mut src), Some(vec![1, 2, 3]));
    assert!(src.is_empty());
    let mut dst = Vec::new();
    assert_eq!(
        codec.encode(vec![1, 2], &mut dst),
        Err(ATAPIProtocolError::InvalidClientRequestLength(vec![1, 2]))
    );
    assert!(dst.is_empty());
    assert_eq!(codec.encode(vec![7; 12], &mut dst), Ok(()));
    assert_eq!(dst, vec![7; 12]);
}

#[test]
fn read_requests() {
    let packet = [0xF3, 0, 0, 0, 0, 0, 0, 0x10, 0, 0, 0, 2];
    assert_eq!(parse_read_request(&packet), (0x10 * 2048, 2 * 2048));
    assert_eq!(read_amount(100, 40, 1000), 60);
    assert_eq!(read_amount(10_000, 0, 1000), 1000);
    let mut data = vec![1, 2];
    pad_read_reply(&mut data, 5);
    assert_eq!(data, vec![1, 2, 0, 0, 0]);
}
