use cxdb::server::metrics::{ErrorLog, SessionTracker, MAX_ERROR_ENTRIES};

#[test]
fn sessions_track_contexts() {
    let mut t = SessionTracker::new();
    t.register_at(1, "agent-cli".to_string(), Some("1.2.3.4:5".to_string()), 100);
    t.register_at(2, "".to_string(), None, 200);
    t.add_context(1, 10);
    t.add_context(1, 10);
    t.add_context(1, 11);
    assert!(t.is_context_live(10));
    assert!(!t.is_context_live(12));
    assert_eq!(t.get_peer_addr(1), Some("1.2.3.4:5".to_string()));
    assert_eq!(t.get_peer_addr(2), None);
    assert_eq!(t.get_client_tag(1), Some("agent-cli".to_string()));
    let s = t.get_session_for_context(11).unwrap();
    assert_eq!(s.session_id, 1);
    assert_eq!(s.contexts_created, vec![10, 11]);
    let mut live: Vec<u64> = t.get_live_context_ids().into_iter().collect();
    live.sort();
    assert_eq!(live, vec![10, 11]);
    assert_eq!(t.get_active_tags(), vec!["agent-cli".to_string()]);
    assert_eq!(t.get_active_sessions().len(), 2);
    t.record_activity_at(1, 500);
    assert_eq!(t.get_session_for_context(10).unwrap().last_activity_at, 500);
    assert_eq!(t.unregister(1), vec![10, 11]);
    assert!(!t.is_context_live(10));
    assert!(t.get_session_for_context(10).is_none());
    assert_eq!(t.unregister(99), Vec::<u64>::new());
}

#[test]
fn error_ring_buffer_stores_entries() {
    let mut m = ErrorLog::new();
    m.record_error("http", 404, "not found", Some("/v1/foo"));
    m.record_error("binary", 500, "corrupt", None);
    let recent = m.recent_errors(10);
    assert_eq!(recent.len(), 2);
    assert_eq!(recent[0].kind, "binary");
    assert_eq!(recent[0].status_code, 500);
    assert_eq!(recent[1].kind, "http");
    assert_eq!(recent[1].path, Some("/v1/foo".to_string()));
}

#[test]
fn error_ring_buffer_evicts_oldest() {
    let mut m = ErrorLog::new();
    for i in 0..MAX_ERROR_ENTRIES + 10 {
        m.record_error("http", 404, &format!("error-{i}"), None);
    }
    let recent = m.recent_errors(MAX_ERROR_ENTRIES);
    assert_eq!(recent.len(), MAX_ERROR_ENTRIES);
    assert!(recent.last().unwrap().message.contains("error-10"));
    assert!(recent.first().unwrap().message.contains(&format!("error-{}", MAX_ERROR_ENTRIES + 9)));
}

#[test]
fn error_ring_buffer_respects_limit() {
    let mut m = ErrorLog::new();
    for i in 0..20 {
        m.record_error("http", 400, &format!("err-{i}"), None);
    }
    let recent = m.recent_errors(5);
    assert_eq!(recent.len(), 5);
    assert!(recent[0].message.contains("err-19"));
    assert!(recent[4].message.contains("err-15"));
}

#[test]
fn record_error_increments_counters() {
    let mut m = ErrorLog::new();
    m.record_error("http", 404, "not found", None);
    m.record_error("http", 500, "internal", None);
    m.record_error("binary", 422, "bad input", None);
    assert_eq!(m.total(), 3);
    assert_eq!(m.count_for("http"), 2);
    assert_eq!(m.count_for("binary"), 1);
    assert_eq!(m.count_for("other"), 0);
}
