//! Which errors mean that the connection to the server is lost.
use vstd::prelude::*;
use crate::client::error::{Error, IoErrorKind, SpecError, error_text};
use crate::text::{contains_seq, lowercase, str_contains, to_lowercase};

verus! {

/// The phrases that mark an error text as a lost connection.
pub open spec fn connection_patterns() -> Seq<Seq<char>> {
    seq![
        "connection reset"@,
        "connection refused"@,
        "broken pipe"@,
        "use of closed network connection"@,
        "network is unreachable"@,
        "no route to host"@,
        "connection timed out"@,
        "i/o timeout"@,
    ]
}

/// Whether the lowercase form of a text contains one of the phrases.
pub open spec fn has_connection_pattern(msg: Seq<char>) -> bool {
    exists|k: int| 0 <= k < 8 && #[trigger] contains_seq(lowercase(msg), connection_patterns()[k])
}

/// Whether an error means that the connection is lost: never for a closed
/// client, a server error, a timeout, a cancellation or a full queue; always
/// for a reset, aborted, refused, timed-out, closed or unconnected socket or
/// a broken pipe; otherwise when its text names one of the phrases.
pub open spec fn connection_error(e: SpecError) -> bool {
    match e {
        SpecError::ClientClosed | SpecError::Server(..) | SpecError::Timeout | SpecError::Cancelled
        | SpecError::QueueFull => false,
        SpecError::Io(kind, m) => kind != IoErrorKind::Other || has_connection_pattern(m),
        SpecError::Tls(m) => has_connection_pattern(m),
        SpecError::InvalidResponse(m) => has_connection_pattern(m),
        _ => has_connection_pattern(error_text(e)),
    }
}

fn contains_connection_pattern(msg: &str) -> (r: bool)
    ensures
        r == has_connection_pattern(msg@),
{
    let lower = to_lowercase(msg);
    let l = lower.as_str();
    let found = str_contains(l, "connection reset") || str_contains(l, "connection refused")
        || str_contains(l, "broken pipe") || str_contains(l, "use of closed network connection")
        || str_contains(l, "network is unreachable") || str_contains(l, "no route to host")
        || str_contains(l, "connection timed out") || str_contains(l, "i/o timeout");
    proof {
        let ps = connection_patterns();
        if found {
            if contains_seq(lowercase(msg@), "connection reset"@) {
                assert(contains_seq(lowercase(msg@), ps[0]));
            } else if contains_seq(lowercase(msg@), "connection refused"@) {
                assert(contains_seq(lowercase(msg@), ps[1]));
            } else if contains_seq(lowercase(msg@), "broken pipe"@) {
                assert(contains_seq(lowercase(msg@), ps[2]));
            } else if contains_seq(lowercase(msg@), "use of closed network connection"@) {
                assert(contains_seq(lowercase(msg@), ps[3]));
            } else if contains_seq(lowercase(msg@), "network is unreachable"@) {
                assert(contains_seq(lowercase(msg@), ps[4]));
            } else if contains_seq(lowercase(msg@), "no route to host"@) {
                assert(contains_seq(lowercase(msg@), ps[5]));
            } else if contains_seq(lowercase(msg@), "connection timed out"@) {
                assert(contains_seq(lowercase(msg@), ps[6]));
            } else {
                assert(contains_seq(lowercase(msg@), ps[7]));
            }
        } else {
            assert forall|k: int| 0 <= k < 8 implies !#[trigger] contains_seq(lowercase(msg@), ps[k]) by {
                if k == 0 { assert(ps[0] == "connection reset"@); }
                if k == 1 { assert(ps[1] == "connection refused"@); }
                if k == 2 { assert(ps[2] == "broken pipe"@); }
                if k == 3 { assert(ps[3] == "use of closed network connection"@); }
                if k == 4 { assert(ps[4] == "network is unreachable"@); }
                if k == 5 { assert(ps[5] == "no route to host"@); }
                if k == 6 { assert(ps[6] == "connection timed out"@); }
                if k == 7 { assert(ps[7] == "i/o timeout"@); }
            }
        }
    }
    found
}

/// Whether an error means that the connection is lost, as
/// [`connection_error`] says.
pub fn is_connection_error(err: &Error) -> (r: bool)
    ensures
        r == connection_error(err@),
{
    match err {
        Error::ClientClosed => false,
        Error::Server(_) => false,
        Error::Timeout => false,
        Error::Cancelled => false,
        Error::QueueFull => false,
        Error::Io(io) => match io.kind {
            IoErrorKind::Other => contains_connection_pattern(io.message.as_str()),
            _ => true,
        },
        Error::Tls(msg) => contains_connection_pattern(msg.as_str()),
        Error::InvalidResponse(msg) => contains_connection_pattern(msg.as_str()),
        _ => {
            let text = err.to_display_string();
            contains_connection_pattern(text.as_str())
        },
    }
}

/// The same as [`is_connection_error`].
#[allow(non_snake_case)]
pub fn IsConnectionError(err: &Error) -> (r: bool)
    ensures
        r == connection_error(err@),
{
    is_connection_error(err)
}

} // verus!
