//! Server-side logic: the binary protocol, the event bus, session tracking,
//! the type registry and storage helpers.
pub mod wire;
pub mod error;
pub mod protocol;
pub mod events;
pub mod s3_sync;
pub mod metrics;
pub mod blob_store;
pub mod msgpack;
pub mod fs_store;
pub mod registry;
pub mod turn_store;
pub mod projection;
pub mod session;
