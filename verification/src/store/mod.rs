//! Stores: where files and their blocks are kept.
pub mod container;
pub mod mem;
pub mod pending;
pub mod row;
pub mod tables;
pub mod types;
