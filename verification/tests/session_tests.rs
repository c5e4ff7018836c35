use cxdb::server::error::StoreError;
use cxdb::server::protocol::PutBlobRequest;
use cxdb::server::session::{
    check_put_blob, dispatch, encode_get_blob_resp, encode_get_last_resp, error_code, Outcome, Request, SessionState,
    TurnItem,
};
use cxdb::server::turn_store::{TurnMeta, TurnRecord};

fn hello_payload(tag: &str) -> Vec<u8> {
    let mut p = Vec::new();
    p.extend_from_slice(&1u16.to_le_bytes());
    p.extend_from_slice(&(tag.len() as u16).to_le_bytes());
    p.extend_from_slice(tag.as_bytes());
    p.extend_from_slice(&0u32.to_le_bytes());
    p
}

#[test]
fn put_blob_hash_is_checked() {
    let data = b"hello".to_vec();
    let hash = *blake3::hash(&data).as_bytes();
    assert!(check_put_blob(&PutBlobRequest { hash, data: data.clone() }).is_ok());
    match check_put_blob(&PutBlobRequest { hash: [0; 32], data }) {
        Err(StoreError::InvalidInput(m)) => assert_eq!(m, "blob hash mismatch"),
        _ => panic!("expected a mismatch"),
    }
}

#[test]
fn get_blob_response_bytes() {
    let r = encode_get_blob_resp(b"abc").unwrap();
    assert_eq!(r, vec![3, 0, 0, 0, b'a', b'b', b'c']);
}

#[test]
fn get_last_response_bytes() {
    let record = TurnRecord {
        turn_id: 7,
        parent_turn_id: 6,
        depth: 2,
        codec: 0,
        type_tag: 0,
        payload_hash: [9; 32],
        flags: 0,
        created_at_unix_ms: 0,
    };
    let meta = TurnMeta {
        declared_type_id: "t".to_string(),
        declared_type_version: 1,
        encoding: 1,
        compression: 2,
        uncompressed_len: 100,
    };
    let items = vec![TurnItem { record, meta, payload: Some(vec![1, 2]) }];
    let r = encode_get_last_resp(&items).unwrap();
    let mut want = Vec::new();
    want.extend_from_slice(&1u32.to_le_bytes());
    want.extend_from_slice(&7u64.to_le_bytes());
    want.extend_from_slice(&6u64.to_le_bytes());
    want.extend_from_slice(&2u32.to_le_bytes());
    want.extend_from_slice(&1u32.to_le_bytes());
    want.push(b't');
    want.extend_from_slice(&1u32.to_le_bytes());
    want.extend_from_slice(&1u32.to_le_bytes());
    want.extend_from_slice(&0u32.to_le_bytes());
    want.extend_from_slice(&2u32.to_le_bytes());
    want.extend_from_slice(&[9; 32]);
    want.extend_from_slice(&2u32.to_le_bytes());
    want.extend_from_slice(&[1, 2]);
    assert_eq!(r, want);
    assert_eq!(encode_get_last_resp(&Vec::new()).unwrap(), vec![0, 0, 0, 0]);
}

#[test]
fn dispatch_registers_once_and_rejects_unknown() {
    let mut st = SessionState::new();
    let step = dispatch(&mut st, 1, 0, &hello_payload("agent"));
    assert_eq!(step.register.as_deref(), Some("agent"));
    assert!(matches!(step.outcome, Outcome::Proceed(Request::Hello(_))));
    assert!(st.client_tag_received);
    assert_eq!(st.client_tag, "agent");
    let step = dispatch(&mut st, 1, 0, &hello_payload("other"));
    assert!(step.register.is_none());
    assert_eq!(st.client_tag, "agent");
    let step = dispatch(&mut st, 99, 0, &[]);
    match step.outcome {
        Outcome::Reject(StoreError::InvalidInput(m)) => assert_eq!(m, "unknown msg_type"),
        _ => panic!("expected a rejection"),
    }
    let mut fresh = SessionState::new();
    let step = dispatch(&mut fresh, 2, 0, &5u64.to_le_bytes());
    assert_eq!(step.register.as_deref(), Some(""));
    assert!(matches!(step.outcome, Outcome::Proceed(Request::CtxCreate(5))));
    let step = dispatch(&mut fresh, 4, 0, &[1, 2]);
    assert!(matches!(step.outcome, Outcome::Abort(_)));
    let data = b"xyz".to_vec();
    let mut put = Vec::new();
    put.extend_from_slice(&[0u8; 32]);
    put.extend_from_slice(&3u32.to_le_bytes());
    put.extend_from_slice(&data);
    match dispatch(&mut fresh, 11, 0, &put).outcome {
        Outcome::Abort(StoreError::InvalidInput(m)) => assert_eq!(m, "blob hash mismatch"),
        _ => panic!("expected the hash check to fail"),
    }
}

#[test]
fn error_codes() {
    assert_eq!(error_code(&StoreError::NotFound("x".to_string())), (404, "x".to_string()));
    assert_eq!(error_code(&StoreError::InvalidInput("y".to_string())), (422, "y".to_string()));
    assert_eq!(error_code(&StoreError::Corrupt("z".to_string())).0, 500);
}
