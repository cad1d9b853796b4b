//! What the file system knows of a logical file.
use vstd::prelude::*;

verus! {

/// Number of an inode.
pub type Ino = u64;

/// Attributes of a logical file, apart from what the file below it occupies.
#[derive(Debug, Clone, Copy, PartialEq, Eq, Structural)]
pub struct LogicalAttr {
    /// The file's number.
    pub ino: Ino,
    /// Logical length.
    pub uncompressed_size: u64,
    /// Chunk size of this file.
    pub chunk_size: u32,
}

impl LogicalAttr {
    /// The attributes of a file that holds nothing yet.
    pub fn new(ino: Ino, chunk_size: u32) -> (a: LogicalAttr)
        ensures
            a == (LogicalAttr { ino, uncompressed_size: 0, chunk_size }),
    {
        LogicalAttr { ino, uncompressed_size: 0, chunk_size }
    }
}

} // verus!
