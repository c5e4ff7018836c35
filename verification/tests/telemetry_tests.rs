use cxdb::client::protocol::ENCODING_MSGPACK;
use cxdb::client::telemetry::{TelemetrySender, WorkerStep};
use cxdb::client::turn::AppendRequest;

fn request(context_id: u64) -> AppendRequest {
    AppendRequest {
        context_id,
        parent_turn_id: 0,
        type_id: "test".into(),
        type_version: 1,
        payload: vec![],
        idempotency_key: vec![],
        encoding: ENCODING_MSGPACK,
        compression: 0,
    }
}

#[test]
fn queue_drops_oldest_when_full() {
    let mut sender = TelemetrySender::with_capacity(3);
    for i in 0..3 {
        assert!(sender.send(request(i)), "should not overflow for item {i}");
    }
    assert!(!sender.send(request(100)), "should overflow");
    let stats = sender.stats();
    assert_eq!(stats.dropped_overflow, 1);
    assert_eq!(stats.queue_len, 3);
    assert_eq!(sender.queued_context_ids(), vec![1, 2, 100]);
}

#[test]
fn send_after_shutdown_returns_false() {
    let mut sender = TelemetrySender::with_capacity(10);
    sender.shutdown();
    assert!(!sender.send(request(1)));
}

#[test]
fn worker_drains_in_order_then_stops() {
    let mut sender = TelemetrySender::with_capacity(4);
    assert!(sender.send(request(5)));
    assert!(sender.send(request(6)));
    match sender.next_step() {
        WorkerStep::Send(r) => assert_eq!(r.context_id, 5),
        other => panic!("unexpected {other:?}"),
    }
    sender.record_sent();
    sender.shutdown();
    match sender.next_step() {
        WorkerStep::Send(r) => assert_eq!(r.context_id, 6),
        other => panic!("unexpected {other:?}"),
    }
    sender.record_error();
    assert!(matches!(sender.next_step(), WorkerStep::Stop));
    let stats = sender.stats();
    assert_eq!(stats.sent, 1);
    assert_eq!(stats.dropped_error, 1);
    assert_eq!(stats.queue_len, 0);
}

#[test]
fn worker_waits_on_empty_open_queue() {
    let mut sender = TelemetrySender::with_capacity(2);
    assert!(matches!(sender.next_step(), WorkerStep::Wait));
}

#[test]
fn zero_capacity_queue_keeps_newest() {
    let mut sender = TelemetrySender::with_capacity(0);
    assert!(!sender.send(request(1)));
    assert!(!sender.send(request(2)));
    assert_eq!(sender.queued_context_ids(), vec![2]);
    assert_eq!(sender.stats().dropped_overflow, 2);
}
