use cxdb::client::error::{Error, IoError, IoErrorKind, ServerError};
use cxdb::client::reconnect::is_connection_error;

#[test]
fn is_connection_error_matches_basic_cases() {
    assert!(!is_connection_error(&Error::ClientClosed));
    assert!(!is_connection_error(&Error::Server(ServerError {
        code: 404,
        detail: "not found".to_string(),
    })));
    assert!(is_connection_error(&Error::Io(IoError {
        kind: IoErrorKind::ConnectionReset,
        message: "reset".to_string(),
    })));
    assert!(is_connection_error(&Error::Io(IoError {
        kind: IoErrorKind::TimedOut,
        message: "timeout".to_string(),
    })));
    assert!(is_connection_error(&Error::Tls("connection refused".to_string())));
    assert!(is_connection_error(&Error::Io(IoError {
        kind: IoErrorKind::Other,
        message: "use of closed network connection".to_string(),
    })));
}
