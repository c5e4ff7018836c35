use cxdb::client::events::{
    decode_client_connected, decode_client_disconnected, decode_context_created,
    decode_context_metadata_updated, decode_turn_appended,
};

#[test]
fn decode_context_created_fields() {
    let input = br#"{"context_id":"42","session_id":"sess-abc","client_tag":"ai-staff","created_at":1739481600000}"#;
    let ev = decode_context_created(input).expect("decode context_created");
    assert_eq!(ev.context_id, 42);
    assert_eq!(ev.session_id, "sess-abc");
    assert_eq!(ev.client_tag, "ai-staff");
    assert_eq!(ev.created_at, 1739481600000);
}

#[test]
fn decode_turn_appended_optional_fields() {
    let input = br#"{"context_id":7,"turn_id":"9","parent_turn_id":"8","depth":10}"#;
    let ev = decode_turn_appended(input).expect("decode turn_appended");
    assert_eq!(ev.context_id, 7);
    assert_eq!(ev.turn_id, 9);
    assert_eq!(ev.parent_turn_id, 8);
    assert_eq!(ev.depth, 10);
    assert!(!ev.has_declared_type_id);
    assert!(!ev.has_declared_type_ver);
}

#[test]
fn decode_turn_appended_with_type_fields() {
    let input = br#"{"context_id":7,"turn_id":9,"declared_type_id":"cxdb.ConversationItem","declared_type_version":"3"}"#;
    let ev = decode_turn_appended(input).expect("decode");
    assert_eq!(ev.declared_type_id, "cxdb.ConversationItem");
    assert!(ev.has_declared_type_id);
    assert_eq!(ev.declared_type_version, 3);
    assert!(ev.has_declared_type_ver);
    assert_eq!(ev.parent_turn_id, 0);
}

#[test]
fn decode_string_ids_are_trimmed_and_empty_is_zero() {
    let ev = decode_context_created(br#"{"context_id":" 12 ","created_at":""}"#).expect("decode");
    assert_eq!(ev.context_id, 12);
    assert_eq!(ev.created_at, 0);
    let ev = decode_context_created(br#"{"context_id":null,"created_at":"-5"}"#).expect("decode");
    assert_eq!(ev.context_id, 0);
    assert_eq!(ev.created_at, -5);
}

#[test]
fn decode_rejects_negative_and_overflowing_ids() {
    let err = decode_context_created(br#"{"context_id":-3}"#).unwrap_err();
    assert_eq!(err.message, "negative value -3");
    let err = decode_turn_appended(br#"{"depth":4294967296}"#).unwrap_err();
    assert_eq!(err.message, "value 4294967296 overflows uint32");
    let err = decode_context_created(br#"{"created_at":9223372036854775808}"#).unwrap_err();
    assert_eq!(err.message, "value 9223372036854775808 overflows int64");
    let err = decode_context_created(br#"{"context_id":"12x"}"#).unwrap_err();
    assert_eq!(err.message, "invalid uint64: invalid digit found in string");
}

#[test]
fn decode_reports_wrong_types() {
    let err = decode_context_created(br#"{"session_id":5}"#).unwrap_err();
    assert_eq!(err.message, "invalid type: integer `5`, expected a string");
    let err = decode_context_metadata_updated(br#"{"has_provenance":"yes"}"#).unwrap_err();
    assert_eq!(err.message, "invalid type: string \"yes\", expected a boolean");
    let err = decode_client_disconnected(br#"{"contexts":[1]}"#).unwrap_err();
    assert_eq!(err.message, "invalid type: integer `1`, expected a string");
    let err = decode_context_created(b"[1,2,3,4,5]").unwrap_err();
    assert_eq!(err.message, "invalid type: integer `2`, expected a string");
    let err = decode_context_created(br#"[1,"s","t",4,5]"#).unwrap_err();
    assert_eq!(err.message, "invalid length 5, expected fewer elements in array");
    let err = decode_client_connected(b"true").unwrap_err();
    assert_eq!(err.message, "invalid type: boolean `true`, expected struct ClientConnectedPayload");
}

#[test]
fn decode_reports_syntax_errors() {
    assert!(decode_client_connected(b"{").is_err());
}

#[test]
fn decode_metadata_and_client_events() {
    let ev = decode_context_metadata_updated(br#"{"context_id":3,"has_provenance":true,"title":"T","labels":["a","b"]}"#).expect("decode");
    assert_eq!(ev.context_id, 3);
    assert!(ev.has_provenance);
    assert_eq!(ev.client_tag, "");
    assert_eq!(ev.title, "T");
    assert_eq!(ev.labels, vec!["a".to_string(), "b".to_string()]);
    let ev = decode_client_connected(br#"{"session_id":"s","client_tag":"t"}"#).expect("decode");
    assert_eq!(ev.session_id, "s");
    assert_eq!(ev.client_tag, "t");
    let ev = decode_client_disconnected(br#"["s","t",["1","2"]]"#).expect("decode");
    assert_eq!(ev.session_id, "s");
    assert_eq!(ev.contexts, vec!["1".to_string(), "2".to_string()]);
}
