//! Client-side logic: event decoding, the server-sent-event stream parser,
//! turn following, telemetry queueing, connection-error classification and
//! the wire format of requests.
pub mod subscribe;
pub mod json;
pub mod events;
pub mod error;
pub mod reconnect;
pub mod protocol;
pub mod turn;
pub mod context;
pub mod fs;
pub mod telemetry;
pub mod types;
pub mod cli;
pub mod fstree;
pub mod follow;
