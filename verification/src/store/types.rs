//! What a store says of files, directories and blocks.
use vstd::prelude::*;

use crate::inode::Ino;

verus! {

/// Kind of a file.
#[derive(Debug, Clone, Copy, PartialEq, Eq, Structural)]
pub enum FileKind {
    RegularFile,
    Directory,
    Symlink,
    NamedPipe,
    CharDevice,
    BlockDevice,
    Socket,
}

/// A point in time, in seconds and nanoseconds since the epoch.
#[derive(Debug, Clone, Copy, PartialEq, Eq, Structural)]
pub struct Time {
    /// Seconds; negative before the epoch.
    pub secs: i64,
    /// Nanoseconds within the second.
    pub nanos: u32,
}

impl Time {
    /// The epoch.
    pub open spec fn at_epoch() -> Time {
        Time { secs: 0, nanos: 0 }
    }

    /// The epoch.
    pub fn epoch() -> (t: Time)
        ensures
            t == Time::at_epoch(),
    {
        Time { secs: 0, nanos: 0 }
    }
}

/// Attributes of a file.
#[derive(Debug, Clone, Copy, PartialEq, Eq, Structural)]
pub struct Attr {
    /// Number of the file.
    pub ino: Ino,
    /// Logical length.
    pub size: u64,
    /// Kind.
    pub kind: FileKind,
    /// Permission bits.
    pub perm: u16,
    /// Owner.
    pub uid: u32,
    /// Group.
    pub gid: u32,
    /// Time of the last change of content.
    pub mtime: Time,
    /// Time of the last access.
    pub atime: Time,
    /// Time of the last change of attributes.
    pub ctime: Time,
    /// Chunk size; zero leaves it to the store.
    pub chunk_size: u32,
}

/// A block as it is stored.
#[derive(Debug)]
pub struct StoredBlock {
    /// The stored bytes.
    pub bytes: Vec<u8>,
    /// Whether they are the raw bytes.
    pub stored_verbatim: bool,
}

/// A block as it is stored, as a mathematical value.
#[verifier::ext_equal]
pub struct BlockView {
    pub bytes: Seq<u8>,
    pub verbatim: bool,
}

impl View for StoredBlock {
    type V = BlockView;

    open spec fn view(&self) -> BlockView {
        BlockView { bytes: self.bytes@, verbatim: self.stored_verbatim }
    }
}

impl Clone for StoredBlock {
    fn clone(&self) -> (b: StoredBlock)
        ensures
            b@ == self@,
    {
        let bytes: Vec<u8> = crate::archive::wire::copy_range(&self.bytes, 0, self.bytes.len());
        assert(bytes@ =~= self.bytes@);
        StoredBlock { bytes, stored_verbatim: self.stored_verbatim }
    }
}

/// An entry of a directory.
#[derive(Debug)]
pub struct DirEntry {
    /// Number of the file.
    pub ino: Ino,
    /// Its name.
    pub name: String,
    /// Its kind.
    pub kind: FileKind,
}

/// An entry of a directory, as a mathematical value.
#[verifier::ext_equal]
pub struct DirEntryView {
    pub ino: Ino,
    pub name: Seq<char>,
    pub kind: FileKind,
}

impl View for DirEntry {
    type V = DirEntryView;

    open spec fn view(&self) -> DirEntryView {
        DirEntryView { ino: self.ino, name: self.name@, kind: self.kind }
    }
}

/// Why a store refused.
#[derive(Debug, Clone, Copy, PartialEq, Eq, Structural)]
pub enum StoreError {
    /// The name cannot be a name.
    InvalidName,
    /// There is such a name already.
    AlreadyExists,
    /// There is no such name.
    NotFound,
    /// The name is not that of a directory.
    NotADirectory,
    /// The directory holds something.
    NotEmpty,
    /// An inode row has this length, which no row has.
    BadRow(usize),
    /// A chunk size of zero was given.
    ZeroChunkSize,
}

/// Whether the text can be the name of a directory entry: it is not empty, not one or two dots,
/// and holds neither a slash nor a zero character.
pub open spec fn valid_name(name: Seq<char>) -> bool {
    &&& name.len() > 0
    &&& name != seq!['.']
    &&& name != seq!['.', '.']
    &&& forall|i: int| 0 <= i < name.len() ==> #[trigger] name[i] != '/' && name[i] != '\0'
}

/// Checks a name.
pub fn validate_name(name: &str) -> (r: Result<(), StoreError>)
    ensures
        r == (if valid_name(name@) {
            Ok::<(), StoreError>(())
        } else {
            Err(StoreError::InvalidName)
        }),
{
    let mut len: usize = 0;
    let mut all_dots: bool = true;
    for c in it: name.chars()
        invariant
            it.seq() == name@,
            len <= 3,
            len == (if it.index() < 3 {
                it.index() as int
            } else {
                3
            }),
            all_dots == (forall|i: int| 0 <= i < it.index() ==> #[trigger] name@[i] == '.'),
            forall|i: int|
                0 <= i < it.index() ==> #[trigger] name@[i] != '/' && name@[i] != '\0',
    {
        if c == '/' || c == '\0' {
            assert(name@[it.index() as int] == c);
            return Err(StoreError::InvalidName);
        }
        if c != '.' {
            all_dots = false;
            assert(name@[it.index() as int] == c);
        }
        if len < 3 {
            len = len + 1;
        }
    }
    proof {
        if len == 1 && all_dots {
            assert(name@ =~= seq!['.']);
        }
        if len == 2 && all_dots {
            assert(name@ =~= seq!['.', '.']);
        }
        if name@ == seq!['.'] || name@ == seq!['.', '.'] {
            assert forall|i: int| 0 <= i < name@.len() implies name@[i] == '.' by {}
        }
    }
    if len == 0 || (all_dots && len <= 2) {
        Err(StoreError::InvalidName)
    } else {
        Ok(())
    }
}

/// A name leads nowhere but to an entry of its directory: it holds no separator and no zero
/// character, is not empty, and is neither the directory itself nor the one above it. Every other
/// text is a name.
pub proof fn name_stays_in_its_directory(name: Seq<char>)
    ensures
        valid_name(name) <==> !name.contains('/') && !name.contains('\0') && name.len() > 0 && !(
        name.len() == 1 && name[0] == '.') && !(name.len() == 2 && name[0] == '.' && name[1]
            == '.'),
{
    if valid_name(name) {
        if name.len() == 1 && name[0] == '.' {
            assert(name =~= seq!['.']);
        }
        if name.len() == 2 && name[0] == '.' && name[1] == '.' {
            assert(name =~= seq!['.', '.']);
        }
    }
    if !name.contains('/') && !name.contains('\0') {
        assert forall|i: int| 0 <= i < name.len() implies #[trigger] name[i] != '/' && name[i]
            != '\0' by {
            assert(name.contains(name[i]));
        }
    }
}

} // verus!
