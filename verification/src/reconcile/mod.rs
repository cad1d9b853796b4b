//! Bringing files written under a mount point back into the archive, without losing a record.
pub mod advisor;
pub mod apply;
pub mod delete_gate;
pub mod driver;
pub mod generation;
pub mod guard;
pub mod manifest;
pub mod memory;
pub mod merge;
pub mod order;
pub mod preconditions;
pub mod record;
pub mod replace;
pub mod restore;
pub mod round_trip;
pub mod session_file;
pub mod tree;
pub mod types;
pub mod undo;
