//! What a tar header says about a file, whatever the format it is written
//! in.

use crate::bytes::bytes_equal;
use crate::fs::{get_file_type, get_file_type_spec, FileInfo, FileTypeError};
use crate::tar::path::{normal_parts, normalize, same_path, PathPart};
use vstd::prelude::*;
use vstd::string::StringSliceAdditionalSpecFns;

verus! {

/// The dialect in which headers are written.
#[derive(Copy, Clone, Debug)]
pub enum TarFormat {
    USTAR,
    POSIX,
}

/// The format that goes by a name, given as its bytes: `ustar` or `posix`,
/// in lower case. No other name is one of a format.
pub open spec fn format_named(name: Seq<u8>) -> Option<TarFormat> {
    if name == "ustar".spec_bytes() {
        Some(TarFormat::USTAR)
    } else if name == "posix".spec_bytes() {
        Some(TarFormat::POSIX)
    } else {
        None
    }
}

impl TarFormat {
    /// The format that goes by the name `name`: `ustar` or `posix`.
    pub fn from_name(name: &str) -> (format: Option<TarFormat>)
        ensures
            format == format_named(name.spec_bytes()),
    {
        if bytes_equal(name.as_bytes(), "ustar".as_bytes()) {
            Some(TarFormat::USTAR)
        } else if bytes_equal(name.as_bytes(), "posix".as_bytes()) {
            Some(TarFormat::POSIX)
        } else {
            None
        }
    }
}

impl std::str::FromStr for TarFormat {
    type Err = ();

    /// The format that goes by the name `s`, and an error for a text that
    /// is the name of none.
    fn from_str(s: &str) -> (result: Result<Self, Self::Err>)
        ensures
            result == match format_named(s.spec_bytes()) {
                Some(format) => Ok::<TarFormat, ()>(format),
                None => Err::<TarFormat, ()>(()),
            },
    {
        match TarFormat::from_name(s) {
            Some(format) => Ok(format),
            None => Err(()),
        }
    }
}

/// The kind of a file, as the type flag of a tar header tells it.
#[derive(Copy, Clone, Debug)]
pub enum TarFileType {
    FileStream,
    HardLink,
    SymbolicLink,
    CharacterDevice,
    BlockDevice,
    Directory,
    FIFOPipe,
    /// A kind that only some formats know, with its flag.
    Other(char),
}

impl TarFileType {
    /// The flag of each kind.
    pub open spec fn flag(self) -> char {
        match self {
            TarFileType::FileStream => '0',
            TarFileType::HardLink => '1',
            TarFileType::SymbolicLink => '2',
            TarFileType::CharacterDevice => '3',
            TarFileType::BlockDevice => '4',
            TarFileType::Directory => '5',
            TarFileType::FIFOPipe => '6',
            TarFileType::Other(flag) => flag,
        }
    }

    /// The byte that stands for this kind in a header: its flag, cut to
    /// eight bits.
    pub fn type_byte(&self) -> (byte: u8)
        ensures
            byte == self.flag() as u8,
    {
        #[verifier::truncate]
        (self.type_flag() as u8)
    }

    /// The character that stands for this kind in a header.
    pub fn type_flag(&self) -> (flag: char)
        ensures
            flag == self.flag(),
    {
        match self {
            TarFileType::FileStream => '0',
            TarFileType::HardLink => '1',
            TarFileType::SymbolicLink => '2',
            TarFileType::CharacterDevice => '3',
            TarFileType::BlockDevice => '4',
            TarFileType::Directory => '5',
            TarFileType::FIFOPipe => '6',
            TarFileType::Other(flag) => *flag,
        }
    }
}

/// Why a header could not be written.
#[derive(Copy, Clone, Debug, PartialEq, Eq)]
pub enum HeaderError {
    /// The extended header is longer than its size field can tell.
    ExtendedHeaderTooLong,
    /// The name is too long for the header, or holds a character outside
    /// ASCII.
    NameTooLong,
    /// A time lies before the first of January 1970.
    OlderThanEpoch,
    /// A number does not fit its field.
    NumeralTooLarge,
}

/// What a header says about a file.
///
/// A time is a number of seconds since the start of the first of January
/// 1970, and negative for a time before that. The three recovery fields are
/// set for an entry that takes up a file that an earlier volume holds the
/// start of.
#[derive(Clone, Debug)]
pub struct TarHeader {
    pub path: Vec<PathPart>,
    pub unix_mode: u32,
    pub unix_uid: u32,
    pub unix_gid: u32,
    pub file_size: u64,
    pub mtime: Option<i64>,
    pub file_type: TarFileType,
    pub symlink_path: Option<Vec<PathPart>>,
    pub unix_uname: String,
    pub unix_gname: String,
    pub unix_devmajor: u32,
    pub unix_devminor: u32,
    pub atime: Option<i64>,
    pub birthtime: Option<i64>,
    pub recovery_path: Option<Vec<PathPart>>,
    pub recovery_total_size: Option<u64>,
    pub recovery_seek_offset: Option<u64>,
}

impl TarHeader {
    /// What a header says about the entry that goes into the archive as
    /// `archival_path`, of which the file system tells `info`.
    ///
    /// The path loses its `.` components, and each `..` with the name before
    /// it. The header names no link and no device, and takes up no file.
    /// Fails where the entry is of a kind that has no place in an archive.
    pub fn abstract_header_for_file(archival_path: &[PathPart], info: &FileInfo) -> (result: Result<
        TarHeader,
        FileTypeError,
    >)
        ensures
            match result {
                Ok(header) => {
                    &&& get_file_type_spec(info.kind) == Ok::<TarFileType, FileTypeError>(
                        header.file_type,
                    )
                    &&& same_path(header.path@, normal_parts(archival_path@))
                    &&& header.unix_mode == info.unix_mode
                    &&& header.unix_uid == info.unix_uid
                    &&& header.unix_gid == info.unix_gid
                    &&& header.file_size == info.size
                    &&& header.mtime == info.mtime
                    &&& header.atime == info.atime
                    &&& header.birthtime == info.birthtime
                    &&& header.unix_uname@ == info.unix_uname@
                    &&& header.unix_gname@ == info.unix_gname@
                    &&& header.unix_devmajor == 0
                    &&& header.unix_devminor == 0
                    &&& header.symlink_path.is_none()
                    &&& header.recovery_path.is_none()
                    &&& header.recovery_total_size.is_none()
                    &&& header.recovery_seek_offset.is_none()
                },
                Err(error) => get_file_type_spec(info.kind) == Err::<TarFileType, FileTypeError>(
                    error,
                ),
            },
    {
        let file_type = match get_file_type(info.kind) {
            Ok(file_type) => file_type,
            Err(error) => {
                return Err(error);
            },
        };
        Ok(
            TarHeader {
                path: normalize(archival_path),
                unix_mode: info.unix_mode,
                unix_uid: info.unix_uid,
                unix_gid: info.unix_gid,
                file_size: info.size,
                mtime: info.mtime,
                file_type,
                symlink_path: None,
                unix_uname: info.unix_uname.clone(),
                unix_gname: info.unix_gname.clone(),
                unix_devmajor: 0,
                unix_devminor: 0,
                atime: info.atime,
                birthtime: info.birthtime,
                recovery_path: None,
                recovery_total_size: None,
                recovery_seek_offset: None,
            },
        )
    }
}

/// An entry that is ready to go into an archive.
#[derive(Clone, Debug)]
pub struct HeaderGenResult {
    /// What the header says.
    pub tar_header: TarHeader,
    /// The header as it goes into the archive.
    pub encoded_header: Vec<u8>,
    /// The path as the user gave it, for messages.
    pub original_path: Vec<PathPart>,
    /// The path under which the file can be opened.
    pub canonical_path: Vec<PathPart>,
    /// The start of the file, where it was read ahead.
    pub file_prefix: Option<Vec<u8>>,
}

} // verus!
