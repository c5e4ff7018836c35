//! Snapshots of a directory tree: capture rules, the tree objects that
//! record each directory, walking and comparing snapshots, and tracking
//! changes between captures.
pub mod types;
pub mod options;
pub mod snapshot;
pub mod builder;
pub mod tracker;
