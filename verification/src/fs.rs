//! What the archiver takes from the file system, as far as it does not
//! depend on the system.

use crate::blocking::BlockingWriter;
use crate::spanning::sink::RecoverableWrite;
use crate::tar::header::TarFileType;
use vstd::prelude::*;

verus! {

/// All that a sink for an archive has to be.
pub trait ArchivalSink<I: Clone + PartialEq>: RecoverableWrite<I> {

}

impl<W: RecoverableWrite<P>, P: Clone + PartialEq> ArchivalSink<P> for BlockingWriter<W, P> {

}

/// What kind of file an entry of the file system is, as the system tells
/// it.
#[derive(Copy, Clone, Debug, PartialEq, Eq)]
pub enum EntryKind {
    BlockDevice,
    CharacterDevice,
    Fifo,
    Socket,
    Directory,
    File,
    Symlink,
    /// Nothing that the system has a name for.
    Unknown,
}

/// What the file system tells about an entry, as far as a header needs it.
/// A time is a number of seconds since the start of 1970, negative for a
/// time before that, and missing where the system does not keep it.
#[derive(Clone, Debug)]
pub struct FileInfo {
    pub kind: EntryKind,
    pub unix_mode: u32,
    pub unix_uid: u32,
    pub unix_gid: u32,
    pub unix_uname: String,
    pub unix_gname: String,
    pub size: u64,
    pub mtime: Option<i64>,
    pub atime: Option<i64>,
    pub birthtime: Option<i64>,
}

/// Why an entry cannot go into an archive.
#[derive(Copy, Clone, Debug, PartialEq, Eq)]
pub enum FileTypeError {
    /// A socket has no place in a tar archive.
    SocketNotArchivable,
    /// The system did not say what the entry is.
    NoValidFileType,
}

/// Mode bits for a file of a system that knows none: readable for all, and
/// writable for its owner unless it is read-only; a directory can be
/// searched as well.
pub fn get_unix_mode(is_dir: bool, readonly: bool) -> (mode: u32)
    ensures
        mode == if is_dir {
            if readonly {
                0o555u32
            } else {
                0o755u32
            }
        } else {
            if readonly {
                0o444u32
            } else {
                0o644u32
            }
        },
{
    if !is_dir {
        if readonly {
            0o444
        } else {
            0o644
        }
    } else {
        if readonly {
            0o555
        } else {
            0o755
        }
    }
}

/// The kind of tar entry that stands for a file of the given kind. A socket
/// has none, and neither has what the system cannot name.
pub open spec fn get_file_type_spec(kind: EntryKind) -> Result<TarFileType, FileTypeError> {
    match kind {
        EntryKind::BlockDevice => Ok(TarFileType::BlockDevice),
        EntryKind::CharacterDevice => Ok(TarFileType::CharacterDevice),
        EntryKind::Fifo => Ok(TarFileType::FIFOPipe),
        EntryKind::Socket => Err(FileTypeError::SocketNotArchivable),
        EntryKind::Directory => Ok(TarFileType::Directory),
        EntryKind::File => Ok(TarFileType::FileStream),
        EntryKind::Symlink => Ok(TarFileType::SymbolicLink),
        EntryKind::Unknown => Err(FileTypeError::NoValidFileType),
    }
}

/// The kind of tar entry that stands for a file of the given kind.
#[verifier::when_used_as_spec(get_file_type_spec)]
pub fn get_file_type(kind: EntryKind) -> (result: Result<TarFileType, FileTypeError>)
    ensures
        result == get_file_type_spec(kind),
{
    match kind {
        EntryKind::BlockDevice => Ok(TarFileType::BlockDevice),
        EntryKind::CharacterDevice => Ok(TarFileType::CharacterDevice),
        EntryKind::Fifo => Ok(TarFileType::FIFOPipe),
        EntryKind::Socket => Err(FileTypeError::SocketNotArchivable),
        EntryKind::Directory => Ok(TarFileType::Directory),
        EntryKind::File => Ok(TarFileType::FileStream),
        EntryKind::Symlink => Ok(TarFileType::SymbolicLink),
        EntryKind::Unknown => Err(FileTypeError::NoValidFileType),
    }
}

} // verus!
