use cxdb::server::events::{Delivery, EventBus, StoreEvent};
use std::time::Duration;

#[test]
fn test_event_bus_basic() {
    let mut bus = EventBus::new();
    let sub = bus.subscribe();
    bus.publish(StoreEvent::ClientConnected {
        session_id: "123".to_string(),
        client_tag: "test".to_string(),
    });
    let event = sub.recv_timeout(Duration::from_millis(100));
    assert!(event.is_some());
    match event.unwrap() {
        StoreEvent::ClientConnected { session_id, .. } => {
            assert_eq!(session_id, "123");
        }
        _ => panic!("wrong event type"),
    }
}

#[test]
fn test_event_bus_multiple_subscribers() {
    let mut bus = EventBus::new();
    let sub1 = bus.subscribe();
    let sub2 = bus.subscribe();
    bus.publish(StoreEvent::ContextCreated {
        context_id: "1".to_string(),
        session_id: "2".to_string(),
        client_tag: "tag".to_string(),
        created_at: 12345,
    });
    assert!(sub1.recv_timeout(Duration::from_millis(100)).is_some());
    assert!(sub2.recv_timeout(Duration::from_millis(100)).is_some());
}

#[test]
fn test_event_to_sse() {
    let event = StoreEvent::ContextMetadataUpdated {
        context_id: "123".to_string(),
        client_tag: Some("code-agent".to_string()),
        title: Some("Fix bug".to_string()),
        labels: Some(vec!["urgent".to_string()]),
        has_provenance: true,
    };
    let (event_type, data) = event.to_sse();
    assert_eq!(event_type, "context_metadata_updated");
    assert!(data.contains("\"context_id\":\"123\""));
    assert!(data.contains("\"title\":\"Fix bug\""));
    assert_eq!(
        data,
        r#"{"client_tag":"code-agent","context_id":"123","has_provenance":true,"labels":["urgent"],"title":"Fix bug"}"#
    );
}

#[test]
fn test_context_linked_event_to_sse() {
    let event = StoreEvent::ContextLinked {
        child_context_id: "12".to_string(),
        parent_context_id: "5".to_string(),
        root_context_id: Some("1".to_string()),
        spawn_reason: Some("sub_agent".to_string()),
    };
    let (event_type, data) = event.to_sse();
    assert_eq!(event_type, "context_linked");
    assert!(data.contains("\"child_context_id\":\"12\""));
    assert!(data.contains("\"parent_context_id\":\"5\""));
}

#[test]
fn test_subscriber_cleanup() {
    let mut bus = EventBus::new();
    {
        let _sub = bus.subscribe();
        assert_eq!(bus.subscriber_count(), 1);
    }
    let outcomes = bus.publish(StoreEvent::ClientConnected {
        session_id: "1".to_string(),
        client_tag: "test".to_string(),
    });
    assert_eq!(outcomes, vec![Delivery::Disconnected]);
    assert_eq!(bus.subscriber_count(), 0);
}

#[test]
fn turn_appended_sse_sorted_and_optional_fields() {
    let event = StoreEvent::TurnAppended {
        context_id: "7".to_string(),
        turn_id: "9".to_string(),
        parent_turn_id: "8".to_string(),
        depth: 3,
        declared_type_id: None,
        declared_type_version: Some(2),
    };
    let (name, data) = event.to_sse();
    assert_eq!(name, "turn_appended");
    assert_eq!(
        data,
        r#"{"context_id":"7","declared_type_version":2,"depth":3,"parent_turn_id":"8","turn_id":"9"}"#
    );
}

#[test]
fn error_and_disconnect_sse_with_escapes() {
    let event = StoreEvent::ErrorOccurred {
        timestamp_ms: 5,
        kind: "http".to_string(),
        status_code: 404,
        message: "say \"hi\"".to_string(),
        path: None,
    };
    let (name, data) = event.to_sse();
    assert_eq!(name, "error_occurred");
    assert_eq!(data, r#"{"kind":"http","message":"say \"hi\"","status_code":404,"timestamp_ms":5}"#);
    let event = StoreEvent::ClientDisconnected {
        session_id: "s".to_string(),
        client_tag: "t".to_string(),
        contexts: vec!["1".to_string(), "2".to_string()],
    };
    let (name, data) = event.to_sse();
    assert_eq!(name, "client_disconnected");
    assert_eq!(data, r#"{"client_tag":"t","contexts":["1","2"],"session_id":"s"}"#);
}

#[test]
fn full_channel_keeps_subscriber() {
    let mut bus = EventBus::new();
    let sub = bus.subscribe();
    let mut last = Vec::new();
    for i in 0..4097u64 {
        last = bus.publish(StoreEvent::ContextCreated {
            context_id: i.to_string(),
            session_id: "s".to_string(),
            client_tag: "t".to_string(),
            created_at: i,
        });
    }
    assert_eq!(last, vec![Delivery::Full]);
    assert_eq!(bus.subscriber_count(), 1);
    assert!(sub.try_recv().is_some());
}
