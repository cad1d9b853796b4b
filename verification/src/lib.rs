//! Transparent compressed storage for append-heavy session files, with every rule of it proved.
pub mod archive;
pub mod blockio;
pub mod chunk;
pub mod frontend;
pub mod hang_cache;
pub mod inode;
pub mod inode_table;
pub mod metrics;
pub mod ordmap;
pub mod passthrough;
pub mod path;
pub mod ratio;
pub mod read;
pub mod reconcile;
pub mod store;
pub mod text;
pub mod umount;
