use cxdb::client::error::Error;
use cxdb::client::protocol::{read_frame, write_frame, FrameHeader, MAX_FRAME_SIZE, MSG_HELLO};

fn header_bytes(len: u32, msg_type: u16, flags: u16, req_id: u64) -> Vec<u8> {
    let mut buf = Vec::new();
    buf.extend_from_slice(&len.to_le_bytes());
    buf.extend_from_slice(&msg_type.to_le_bytes());
    buf.extend_from_slice(&flags.to_le_bytes());
    buf.extend_from_slice(&req_id.to_le_bytes());
    buf
}

#[test]
fn frame_header_roundtrip() {
    let payload = b"abc";
    let buf = write_frame(5, 0, 42, payload);
    let frame = read_frame(&buf).unwrap();
    assert_eq!(
        frame.header,
        FrameHeader { len: payload.len() as u32, msg_type: 5, flags: 0, req_id: 42 }
    );
    assert_eq!(frame.payload, payload);
}

#[test]
fn truncated_header_is_invalid_response() {
    let data = vec![0u8; 3];
    let err = read_frame(&data).unwrap_err();
    assert!(matches!(err, Error::InvalidResponse(_)));
}

#[test]
fn oversized_frame_is_rejected() {
    let buf = header_bytes(MAX_FRAME_SIZE + 1, MSG_HELLO, 0, 1);
    let err = read_frame(&buf).unwrap_err();
    assert!(matches!(err, Error::InvalidResponse(_)));
}

#[test]
fn truncated_payload_is_invalid_response() {
    let mut buf = header_bytes(4, MSG_HELLO, 0, 1);
    buf.extend_from_slice(&[1, 2]);
    let err = read_frame(&buf).unwrap_err();
    assert!(matches!(err, Error::InvalidResponse(_)));
}
