//! Taking up on a new volume the files that an earlier volume holds only
//! the start of.

use crate::spanning::stream::zone_views;
use crate::spanning::zone::DataZone;
use crate::tar::header::{HeaderError, HeaderGenResult, TarFileType, TarFormat, TarHeader};
use crate::tar::path::{clone_parts, paths_equal, same_path, PathPart};
use crate::tar::pax;
use crate::tar::ustar;
use vstd::prelude::*;
use vstd::std_specs::cmp::PartialEqSpecImpl;

verus! {

/// The source of a zone in an archive: the file, and how many bytes of its
/// zone are the header.
#[derive(Debug)]
pub struct RecoveryEntry {
    /// The path as the user gave it, for messages.
    pub original_path: Vec<PathPart>,
    /// The path under which the file can be opened.
    pub canonical_path: Vec<PathPart>,
    /// How many bytes at the start of the zone are the header of the entry.
    pub header_length: u64,
}

impl RecoveryEntry {
    /// Both entries name the same file and have a header of the same
    /// length.
    pub open spec fn same_entry(self, other: Self) -> bool {
        &&& same_path(self.original_path@, other.original_path@)
        &&& same_path(self.canonical_path@, other.canonical_path@)
        &&& self.header_length == other.header_length
    }

    /// The source of the zone of `hg`, whose header takes `header_length`
    /// bytes.
    pub fn new_from_headergen(hg: &HeaderGenResult, header_length: u64) -> (entry: RecoveryEntry)
        ensures
            same_path(entry.original_path@, hg.original_path@),
            same_path(entry.canonical_path@, hg.canonical_path@),
            entry.header_length == header_length,
    {
        RecoveryEntry {
            original_path: clone_parts(hg.original_path.as_slice()),
            canonical_path: clone_parts(hg.canonical_path.as_slice()),
            header_length,
        }
    }

    pub fn new(original_path: &[PathPart], canonical_path: &[PathPart], header_length: u64) -> (entry:
        RecoveryEntry)
        ensures
            same_path(entry.original_path@, original_path@),
            same_path(entry.canonical_path@, canonical_path@),
            entry.header_length == header_length,
    {
        RecoveryEntry {
            original_path: clone_parts(original_path),
            canonical_path: clone_parts(canonical_path),
            header_length,
        }
    }

    /// Whether both entries name the same file: their paths are the same,
    /// whatever the length of their headers.
    pub fn is_same_file(&self, other: &Self) -> (same: bool)
        ensures
            same == (same_path(self.original_path@, other.original_path@) && same_path(
                self.canonical_path@,
                other.canonical_path@,
            )),
    {
        paths_equal(self.original_path.as_slice(), other.original_path.as_slice()) && paths_equal(
            self.canonical_path.as_slice(),
            other.canonical_path.as_slice(),
        )
    }
}

impl Clone for RecoveryEntry {
    fn clone(&self) -> (copy: Self)
        ensures
            copy.same_entry(*self),
    {
        RecoveryEntry {
            original_path: clone_parts(self.original_path.as_slice()),
            canonical_path: clone_parts(self.canonical_path.as_slice()),
            header_length: self.header_length,
        }
    }
}

impl PartialEq for RecoveryEntry {
    fn eq(&self, other: &Self) -> (same: bool) {
        self.is_same_file(other) && self.header_length == other.header_length
    }
}

impl PartialEqSpecImpl for RecoveryEntry {
    open spec fn obeys_eq_spec() -> bool {
        true
    }

    open spec fn eq_spec(&self, other: &Self) -> bool {
        self.same_entry(*other)
    }
}

/// How many bytes of a file are safe on earlier volumes, where the zone of
/// its entry has `committed` bytes committed of which `header_length` are
/// the header, and the file is `file_len` bytes long: what was committed
/// beyond the header, but no more than the file holds.
pub open spec fn safe_bytes(committed: u64, header_length: u64, file_len: u64) -> u64 {
    let beyond = if committed >= header_length {
        (committed - header_length) as u64
    } else {
        0
    };
    if beyond <= file_len {
        beyond
    } else {
        file_len
    }
}

/// The bytes of a file that are safe on earlier volumes, and after them the
/// bytes from there to the end of the file, which the entry covers that
/// takes the file up again, are the bytes of the file: none is left out, and
/// none comes twice.
pub proof fn lemma_continuation_completes_file(file: Seq<u8>, committed: u64, header_length: u64)
    requires
        file.len() <= u64::MAX,
    ensures
        ({
            let offset = safe_bytes(committed, header_length, file.len() as u64) as int;
            &&& 0 <= offset <= file.len()
            &&& file.subrange(0, offset) + file.subrange(offset, file.len() as int) == file
        }),
{
    let offset = safe_bytes(committed, header_length, file.len() as u64) as int;
    assert(file.subrange(0, offset) + file.subrange(offset, file.len() as int) =~= file);
}

/// A zone that was resumed with `offset` bytes committed, and has since
/// committed its header and `data` bytes of the file, tells the place in the
/// file that was reached: `data` bytes beyond `offset`.
pub proof fn lemma_resumed_zone_tells_the_place(
    offset: u64,
    header_length: u64,
    data: u64,
    file_len: u64,
)
    requires
        offset + header_length + data <= u64::MAX,
        offset + data <= file_len,
    ensures
        safe_bytes((offset + header_length + data) as u64, header_length, file_len) == offset
            + data,
{
}

/// How many bytes of a file of `file_len` bytes are safe on earlier volumes,
/// where `zone` is the zone of its entry. A slack zone names no file.
pub fn recovery_offset(zone: &DataZone<RecoveryEntry>, file_len: u64) -> (offset: Option<u64>)
    ensures
        offset == match zone.ident {
            Some(ident) => Some(safe_bytes(zone.committed_length, ident.header_length, file_len)),
            None => None,
        },
{
    match &zone.ident {
        Some(ident) => {
            let beyond: u64 = if zone.committed_length >= ident.header_length {
                zone.committed_length - ident.header_length
            } else {
                0
            };
            Some(
                if beyond <= file_len {
                    beyond
                } else {
                    file_len
                },
            )
        },
        None => None,
    }
}

/// `continuation` is the header of the entry that takes up a file of
/// `file_len` bytes of which `offset` bytes are safe on earlier volumes, a
/// file that goes by `original_path` and of which a fresh header says
/// `header`.
///
/// It says what `header` says, but for the size, which is what is left of
/// the file: nothing, where the file ends before the offset. In the PAX
/// format the recovery fields name the file, its whole size and the offset;
/// the USTAR format has no place for them, and the entry stands for the rest
/// of the file as if that were a file.
pub open spec fn continues(
    continuation: TarHeader,
    header: TarHeader,
    original_path: Seq<PathPart>,
    file_len: u64,
    offset: u64,
    format: TarFormat,
) -> bool {
    &&& continuation.file_size == if offset <= file_len {
        (file_len - offset) as u64
    } else {
        0u64
    }
    &&& continuation.path == header.path
    &&& continuation.unix_mode == header.unix_mode
    &&& continuation.unix_uid == header.unix_uid
    &&& continuation.unix_gid == header.unix_gid
    &&& continuation.mtime == header.mtime
    &&& continuation.file_type == header.file_type
    &&& continuation.symlink_path == header.symlink_path
    &&& continuation.unix_uname == header.unix_uname
    &&& continuation.unix_gname == header.unix_gname
    &&& continuation.unix_devmajor == header.unix_devmajor
    &&& continuation.unix_devminor == header.unix_devminor
    &&& continuation.atime == header.atime
    &&& continuation.birthtime == header.birthtime
    &&& match format {
        TarFormat::POSIX => {
            &&& continuation.recovery_path matches Some(path) && same_path(path@, original_path)
            &&& continuation.recovery_total_size == Some(file_len)
            &&& continuation.recovery_seek_offset == Some(offset)
        },
        TarFormat::USTAR => {
            &&& continuation.recovery_path.is_none()
            &&& continuation.recovery_total_size.is_none()
            &&& continuation.recovery_seek_offset.is_none()
        },
    }
}

/// The header of the entry that takes up a file of `file_len` bytes of which
/// `offset` bytes are safe on earlier volumes.
pub fn continuation_header(
    header: TarHeader,
    original_path: &[PathPart],
    file_len: u64,
    offset: u64,
    format: TarFormat,
) -> (continuation: TarHeader)
    ensures
        continues(continuation, header, original_path@, file_len, offset, format),
{
    let mut continuation = header;
    continuation.file_size = if offset <= file_len {
        file_len - offset
    } else {
        0
    };
    match format {
        TarFormat::POSIX => {
            continuation.recovery_path = Some(clone_parts(original_path));
            continuation.recovery_total_size = Some(file_len);
            continuation.recovery_seek_offset = Some(offset);
        },
        TarFormat::USTAR => {
            continuation.recovery_path = None;
            continuation.recovery_total_size = None;
            continuation.recovery_seek_offset = None;
        },
    }
    continuation
}

/// The header of `tarheader` as it goes into an archive of the given format,
/// with its checksums filled in.
pub open spec fn encoded(tarheader: TarHeader, format: TarFormat) -> Seq<u8> {
    match format {
        TarFormat::USTAR => ustar::checksummed(ustar::ustar_fields(tarheader).record()),
        TarFormat::POSIX => pax::pax_checksummed(pax::pax_image(tarheader)),
    }
}

/// The header of `tarheader` can be written in the given format.
///
/// USTAR needs a name that its two fields can tell in full. PAX needs times
/// that do not lie before 1970, and an extended header whose length a size
/// field can tell.
pub open spec fn encodable(tarheader: TarHeader, format: TarFormat) -> bool {
    match format {
        TarFormat::USTAR => !ustar::header_names(tarheader).2,
        TarFormat::POSIX => pax::times_valid(tarheader) && pax::stream_fits(tarheader),
    }
}

/// Why the header of `tarheader` cannot be written in the given format,
/// where it cannot.
pub open spec fn encode_error(tarheader: TarHeader, format: TarFormat) -> HeaderError {
    match format {
        TarFormat::USTAR => HeaderError::NameTooLong,
        TarFormat::POSIX => if !pax::times_valid(tarheader) {
            HeaderError::OlderThanEpoch
        } else {
            HeaderError::ExtendedHeaderTooLong
        },
    }
}

/// Writes the header of `tarheader` as it goes into an archive of the given
/// format: whole records of 512 bytes, with their checksums filled in.
pub fn encode_header(tarheader: &TarHeader, format: TarFormat) -> (result: Result<
    Vec<u8>,
    HeaderError,
>)
    ensures
        match result {
            Ok(bytes) => {
                &&& encodable(*tarheader, format)
                &&& bytes@ == encoded(*tarheader, format)
                &&& bytes@.len() % 512 == 0
                &&& bytes@.len() >= 512
            },
            Err(error) => !encodable(*tarheader, format) && error == encode_error(
                *tarheader,
                format,
            ),
        },
{
    match format {
        TarFormat::USTAR => {
            match ustar::ustar_header(tarheader) {
                Ok(mut bytes) => {
                    ustar::checksum_header(&mut bytes);
                    Ok(bytes)
                },
                Err(error) => Err(error),
            }
        },
        TarFormat::POSIX => {
            match pax::pax_header(tarheader) {
                Ok(mut bytes) => {
                    pax::checksum_header(&mut bytes);
                    Ok(bytes)
                },
                Err(error) => Err(error),
            }
        },
    }
}

/// What it takes to write the entry that takes up a file again.
#[derive(Debug)]
pub struct RecoveryStep {
    /// What the header of the entry says.
    pub header: TarHeader,
    /// The header as it goes into the archive.
    pub encoded_header: Vec<u8>,
    /// The source of the zone to open before the header is written. The
    /// zone is resumed with `offset` bytes committed, so that what it has
    /// committed beyond its header is always the place in the file that the
    /// volumes have reached.
    pub ident: RecoveryEntry,
    /// The place in the file from which its bytes follow the header.
    pub offset: u64,
    /// Whether bytes of the file follow the header at all.
    pub has_data: bool,
}

/// Plans the entry that takes up on a new volume the file of the zone
/// `zone`, a file that is now `file_len` bytes long and of which a fresh
/// header says `header`.
///
/// A slack zone needs no entry. For any other zone the entry begins at the
/// first byte that no earlier volume holds: the bytes of the zone that were
/// committed beyond its header are safe, and the entry covers the rest of the
/// file, so that every byte of the file is written once. The zone of the new
/// entry is named after the same file, with the length of the new header,
/// and is to be resumed at the offset. Bytes follow the header only for a
/// regular file.
///
/// The plan fails only where the header of the new entry cannot be written
/// in the format, and then with the reason for that.
pub fn plan_recovery(
    zone: &DataZone<RecoveryEntry>,
    header: TarHeader,
    file_len: u64,
    format: TarFormat,
) -> (result: Result<Option<RecoveryStep>, HeaderError>)
    ensures
        match result {
            Ok(Some(step)) => {
                &&& zone.ident matches Some(ident) && step.offset == safe_bytes(
                    zone.committed_length,
                    ident.header_length,
                    file_len,
                ) && same_path(step.ident.original_path@, ident.original_path@) && same_path(
                    step.ident.canonical_path@,
                    ident.canonical_path@,
                ) && continues(
                    step.header,
                    header,
                    ident.original_path@,
                    file_len,
                    step.offset,
                    format,
                )
                &&& step.offset + step.header.file_size == file_len
                &&& encodable(step.header, format)
                &&& step.encoded_header@ == encoded(step.header, format)
                &&& step.ident.header_length == step.encoded_header@.len()
                &&& step.has_data == (header.file_type is FileStream)
                &&& step.header.path == header.path
                &&& step.header.recovery_seek_offset == match format {
                    TarFormat::POSIX => Some(step.offset),
                    TarFormat::USTAR => None,
                }
            },
            Ok(None) => zone.ident.is_none(),
            Err(error) => {
                &&& zone.ident matches Some(ident) && exists|continuation: TarHeader|
                    {
                        &&& #[trigger] continues(
                            continuation,
                            header,
                            ident.original_path@,
                            file_len,
                            safe_bytes(zone.committed_length, ident.header_length, file_len),
                            format,
                        )
                        &&& !encodable(continuation, format)
                        &&& error == encode_error(continuation, format)
                    }
                &&& match format {
                    TarFormat::USTAR => !encodable(header, format) && error == encode_error(
                        header,
                        format,
                    ),
                    TarFormat::POSIX => if pax::times_valid(header) {
                        error == HeaderError::ExtendedHeaderTooLong
                    } else {
                        error == HeaderError::OlderThanEpoch
                    },
                }
            },
        },
        result matches Ok(Some(_)) ==> match format {
            TarFormat::USTAR => encodable(header, format),
            TarFormat::POSIX => pax::times_valid(header),
        },
{
    let offset: u64 = match recovery_offset(zone, file_len) {
        Some(offset) => offset,
        None => {
            return Ok(None);
        },
    };
    match &zone.ident {
        Some(ident) => {
            let has_data = match header.file_type {
                TarFileType::FileStream => true,
                _ => false,
            };
            let continuation = continuation_header(
                header,
                ident.original_path.as_slice(),
                file_len,
                offset,
                format,
            );
            let encoded_header = match encode_header(&continuation, format) {
                Ok(bytes) => bytes,
                Err(error) => {
                    return Err(error);
                },
            };
            let new_ident = RecoveryEntry::new(
                ident.original_path.as_slice(),
                ident.canonical_path.as_slice(),
                encoded_header.len() as u64,
            );
            Ok(
                Some(
                    RecoveryStep {
                        header: continuation,
                        encoded_header,
                        ident: new_ident,
                        offset,
                        has_data,
                    },
                ),
            )
        },
        None => Ok(None),
    }
}

/// The zones that are still to recover once a sink ran full during
/// recovery: those that the sink reports, then those of `lost` from place
/// `next` on, which were not begun.
pub fn leftover_zones(
    reported: Vec<DataZone<RecoveryEntry>>,
    lost: &Vec<DataZone<RecoveryEntry>>,
    next: usize,
) -> (zones: Vec<DataZone<RecoveryEntry>>)
    requires
        next <= lost.len(),
    ensures
        zones@.len() == reported@.len() + lost@.len() - next,
        zones@.subrange(0, reported@.len() as int) == reported@,
        forall|i: int|
            next <= i < lost@.len() ==> (#[trigger] zones@[reported@.len() + i - next])@.is_clone_of(
                lost@[i]@,
            ),
{
    let mut zones = reported;
    let mut i: usize = next;
    while i < lost.len()
        invariant
            next <= i <= lost.len(),
            zones@.len() == reported@.len() + i - next,
            zones@.subrange(0, reported@.len() as int) == reported@,
            forall|j: int|
                next <= j < i ==> (#[trigger] zones@[reported@.len() + j - next])@.is_clone_of(
                    lost@[j]@,
                ),
        decreases lost.len() - i,
    {
        let ghost before = zones@;
        zones.push(lost[i].clone());
        assert(zones@.subrange(0, reported@.len() as int) =~= before.subrange(
            0,
            reported@.len() as int,
        ));
        i += 1;
    }
    zones
}

} // verus!
