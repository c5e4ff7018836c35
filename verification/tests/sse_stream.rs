use cxdb::client::subscribe::{check_subscribe_url, next_retry_delay, read_event_stream, SseParser, SubscribeErrorKind};

#[test]
fn read_event_stream_multi_line() {
    let input = "event: turn_appended\n\
data: {\"a\":1}\n\
data: {\"b\":2}\n\n";
    let (events, err) = read_event_stream(input, 1024);
    assert!(err.is_eof());
    assert_eq!(events.len(), 1);
    assert_eq!(events[0].event_type, "turn_appended");
    assert_eq!(String::from_utf8_lossy(&events[0].data), "{\"a\":1}\n{\"b\":2}");
}

#[test]
fn read_event_stream_default_type_and_comments() {
    let input = ": heartbeat\n\
data: {\"ok\":true}\n\n";
    let (events, err) = read_event_stream(input, 1024);
    assert!(err.is_eof());
    assert_eq!(events.len(), 1);
    assert_eq!(events[0].event_type, "message");
    assert_eq!(String::from_utf8_lossy(&events[0].data), "{\"ok\":true}");
}

#[test]
fn read_event_stream_oversize() {
    let input = format!("event: big\ndata: {}\n\n", "x".repeat(20));
    let (_events, err) = read_event_stream(&input, 10);
    assert!(!err.is_eof());
}

#[test]
fn read_event_stream_malformed_field() {
    let input = "bad field\n\n";
    let (_events, err) = read_event_stream(input, 1024);
    assert!(err.detail.contains("malformed field"));
    assert_eq!(err.detail, "cxdb subscribe: malformed field \"bad field\"");
}

#[test]
fn read_event_stream_flushes_at_end_and_keeps_id() {
    let (events, err) = read_event_stream("id: 7\r\ndata:x", 0);
    assert!(err.is_eof());
    assert_eq!(events.len(), 1);
    assert_eq!(events[0].id, "7");
    assert_eq!(events[0].data, b"x".to_vec());
}

#[test]
fn read_event_stream_oversize_message_counts_bytes() {
    let (_events, err) = read_event_stream("data: abcdef\n", 5);
    assert_eq!(err.detail, "cxdb subscribe: event exceeds max size (6 bytes)");
}

#[test]
fn parser_feeds_lines_one_at_a_time() {
    let mut p = SseParser::new();
    assert_eq!(p.feed_line("event: x\n", 0).0, None);
    assert_eq!(p.feed_line("data: 1\n", 0).0, None);
    let (ev, end) = p.feed_line("\n", 0);
    assert!(end.is_none());
    let ev = ev.expect("event");
    assert_eq!(ev.event_type, "x");
    assert_eq!(ev.data, b"1".to_vec());
    let (ev, end) = p.feed_line("", 0);
    assert!(ev.is_none());
    assert!(end.unwrap().is_eof());
}

#[test]
fn retry_delay_doubles_up_to_the_cap() {
    assert_eq!(next_retry_delay(0, 0), 500_000_000);
    assert_eq!(next_retry_delay(500_000_000, 10_000_000_000), 1_000_000_000);
    assert_eq!(next_retry_delay(8_000_000_000, 10_000_000_000), 10_000_000_000);
    assert_eq!(next_retry_delay(8_000_000_000, 0), 16_000_000_000);
}

#[test]
fn blank_subscribe_url_is_refused() {
    let e = check_subscribe_url("   ").unwrap();
    assert_eq!(e.kind, SubscribeErrorKind::Other);
    assert_eq!(e.detail, "cxdb subscribe: url is required");
    assert!(check_subscribe_url("http://localhost:9010/events").is_none());
}
