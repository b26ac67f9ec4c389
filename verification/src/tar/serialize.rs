//! Putting an entry into an archive: its header, the bytes of its file, and
//! the zero bytes that fill its last record.

use crate::bytes::{zero_bytes, zeros};
use crate::spanning::sink::{ends_with, ByteSink, SinkError};
use crate::tar::header::{HeaderError, HeaderGenResult, TarFileType, TarFormat, TarHeader};
use crate::tar::path::PathPart;
use crate::tar::recovery::{encodable, encode_error, encode_header, encoded};
use vstd::prelude::*;

verus! {

/// The most that is read ahead of a file while the archive is busy.
pub const READ_AHEAD_LIMIT: u64 = 65536;

/// How many bytes of a file to read ahead of writing it: the whole of a
/// regular file up to 64 KiB, and nothing of anything else.
pub fn read_ahead_length(tarheader: &TarHeader) -> (length: Option<u64>)
    ensures
        length == if tarheader.file_type is FileStream {
            Some(
                if tarheader.file_size <= READ_AHEAD_LIMIT {
                    tarheader.file_size
                } else {
                    READ_AHEAD_LIMIT
                },
            )
        } else {
            None
        },
{
    match tarheader.file_type {
        TarFileType::FileStream => Some(
            if tarheader.file_size <= READ_AHEAD_LIMIT {
                tarheader.file_size
            } else {
                READ_AHEAD_LIMIT
            },
        ),
        _ => None,
    }
}

/// Makes an entry ready for the archive: writes its header in the given
/// format and puts with it the paths of the file and what was read ahead of
/// it.
///
/// Fails where the header cannot be written in that format.
pub fn headergen(
    original_path: Vec<PathPart>,
    canonical_path: Vec<PathPart>,
    tarheader: TarHeader,
    format: TarFormat,
    file_prefix: Option<Vec<u8>>,
) -> (result: Result<HeaderGenResult, HeaderError>)
    ensures
        match result {
            Ok(entry) => {
                &&& encodable(tarheader, format)
                &&& entry.tar_header == tarheader
                &&& entry.encoded_header@ == encoded(tarheader, format)
                &&& entry.encoded_header@.len() % 512 == 0
                &&& entry.encoded_header@.len() >= 512
                &&& entry.original_path == original_path
                &&& entry.canonical_path == canonical_path
                &&& entry.file_prefix == file_prefix
            },
            Err(error) => !encodable(tarheader, format) && error == encode_error(
                tarheader,
                format,
            ),
        },
{
    match encode_header(&tarheader, format) {
        Ok(encoded_header) => Ok(
            HeaderGenResult {
                tar_header: tarheader,
                encoded_header,
                original_path,
                canonical_path,
                file_prefix,
            },
        ),
        Err(error) => Err(error),
    }
}

/// From which place on the bytes of the file of an entry are still to be
/// read once its header and what was read ahead are written: the number of
/// bytes that were read ahead, and nowhere if those were the whole file or
/// the entry is no regular file.
pub fn stream_start(entry: &HeaderGenResult) -> (start: Option<u64>)
    ensures
        start == if !(entry.tar_header.file_type is FileStream) {
            None
        } else {
            match entry.file_prefix {
                Some(prefix) => if prefix@.len() >= entry.tar_header.file_size {
                    None
                } else {
                    Some(prefix@.len() as u64)
                },
                None => Some(0u64),
            }
        },
{
    match entry.tar_header.file_type {
        TarFileType::FileStream => {
            match &entry.file_prefix {
                Some(prefix) => {
                    if prefix.len() as u64 >= entry.tar_header.file_size {
                        None
                    } else {
                        Some(prefix.len() as u64)
                    }
                },
                None => Some(0),
            }
        },
        _ => None,
    }
}

/// How many bytes an entry should have taken in the archive: its header and
/// its file.
pub open spec fn expected_size(entry: HeaderGenResult) -> nat {
    entry.encoded_header@.len() + entry.tar_header.file_size as nat
}

/// How many bytes the file of an entry fell short of its header, where
/// `written` bytes were written of header and file together: nothing where
/// the entry is no regular file or took what it should, and else what is
/// missing, which is none for an entry that took too much and is cut to 64
/// bits.
pub fn shortfall(entry: &HeaderGenResult, written: u64) -> (missing: Option<u64>)
    ensures
        missing == if !(entry.tar_header.file_type is FileStream) || written == expected_size(
            *entry,
        ) {
            None
        } else if written > expected_size(*entry) {
            Some(0u64)
        } else if expected_size(*entry) - written > u64::MAX {
            Some(u64::MAX)
        } else {
            Some((expected_size(*entry) - written) as u64)
        },
{
    match entry.tar_header.file_type {
        TarFileType::FileStream => {
            let expected: u128 = entry.encoded_header.len() as u128
                + entry.tar_header.file_size as u128;
            let taken: u128 = written as u128;
            if taken == expected {
                None
            } else if taken > expected {
                Some(0)
            } else if expected - taken > u64::MAX as u128 {
                Some(u64::MAX)
            } else {
                Some((expected - taken) as u64)
            }
        },
        _ => None,
    }
}

/// How many zero bytes fill up an entry of `written` bytes to whole records
/// of 512 bytes.
pub fn entry_padding(written: u64) -> (padding: usize)
    ensures
        padding < 512,
        (written + padding) % 512 == 0,
        written % 512 == 0 ==> padding == 0,
{
    let over: u64 = written % 512;
    if over == 0 {
        0
    } else {
        (512 - over) as usize
    }
}

/// Ends an archive: two records of zero bytes go to the sink, which is then
/// flushed.
///
/// The sink is offered the 1024 zero bytes in one piece, and what it did not
/// take of them again. It is flushed only once it has taken them all, and
/// the result is how the flush ended. Else the result is the error that
/// ended the writes: that of the sink, or `WriteZero` where it took nothing.
pub fn close_tarball<W: ByteSink>(tarball: &mut W) -> (result: Result<(), SinkError>)
    requires
        old(tarball).inv(),
    ensures
        final(tarball).inv(),
        old(tarball).accepted().is_prefix_of(final(tarball).accepted()),
        final(tarball).presented().len() > old(tarball).presented().len(),
        final(tarball).presented()[old(tarball).presented().len() as int] == zeros(1024),
        final(tarball).outcomes().len() > old(tarball).outcomes().len(),
        result is Ok ==> final(tarball).accepted() == old(tarball).accepted() + zeros(1024),
        if final(tarball).accepted() == old(tarball).accepted() + zeros(1024) {
            final(tarball).flushed() == old(tarball).flushed().push(result is Ok)
        } else {
            &&& final(tarball).flushed() == old(tarball).flushed()
            &&& result matches Err(error) && ends_with(final(tarball).outcomes().last(), error)
        },
{
    let marker = zero_bytes(1024);
    match tarball.write_all(marker.as_slice()) {
        Ok(()) => tarball.flush(),
        Err(error) => Err(error),
    }
}

} // verus!
