//! Verified core of a context store for AI conversations: the query language,
//! its indexes and executor, the binary wire format, the event stream decoder,
//! and the client-side data model.
pub mod text;
pub mod cql;
pub mod idset;
pub mod store;
pub mod hashing;
pub mod compat;
pub mod client;
pub mod server;
