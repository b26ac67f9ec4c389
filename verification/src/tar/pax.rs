//! Headers in the PAX format: a USTAR header that older readers understand,
//! with an extended header before it for what USTAR cannot say.

use crate::bytes::{append_bytes, copy_range, pad_to, padded, zero_bytes, zeros};
use crate::digits::{
    decimal_length, digits, digits_of, lemma_decimal_length_below, lemma_decimal_length_bounds,
    lemma_decimal_length_monotone, lemma_power_has_room, pow,
};
use crate::tar::gnu::{
    format_gnu_numeral, format_time_field, gnu_field, gnu_numeral_or_zeros, gnu_or_zeros,
    time_field,
};
use crate::tar::header::{HeaderError, TarFileType, TarHeader};
use crate::tar::path::{
    canonical_text, canonicalized_tar_path, has_named, joined, lemma_unnamed_is_empty, part_text,
    PathPart,
};
use crate::tar::record::{format_text_field, push_record, text_field, RecordFields};
use crate::tar::ustar::{checksum_range, checksummed_range, fits_octal, format_tar_numeral};
use vstd::prelude::*;
use vstd::string::StringExecFns;
use vstd::string::StringSliceAdditionalSpecFns;
use vstd::utf8::encode_utf8;

verus! {

/// The bytes of `bytes` that are ASCII, in their order.
pub open spec fn ascii_only(bytes: Seq<u8>) -> Seq<u8>
    decreases bytes.len(),
{
    if bytes.len() == 0 {
        bytes
    } else if bytes.last() < 128 {
        ascii_only(bytes.drop_last()).push(bytes.last())
    } else {
        ascii_only(bytes.drop_last())
    }
}

/// Every byte of `bytes` is ASCII.
pub open spec fn all_ascii(bytes: Seq<u8>) -> bool {
    forall|i: int| 0 <= i < bytes.len() ==> #[trigger] bytes[i] < 128
}

/// The first place from `from` on and before `to` where `text` holds a
/// slash, or `to` if there is none.
pub open spec fn first_slash(text: Seq<u8>, from: int, to: int) -> int
    decreases to - from,
{
    if from >= to {
        to
    } else if text[from] == 47 {
        from
    } else {
        first_slash(text, from + 1, to)
    }
}

/// The name and prefix fields of a USTAR header for a path, and whether they
/// fail to tell the path in full.
///
/// The path loses what is not ASCII and ends in a zero byte. Where it fits
/// the name field it goes there. Otherwise it is split at the first slash
/// among its last 99 bytes: what follows the slash is the name, what stands
/// before it the prefix. A prefix of more than 155 bytes is cut down to what
/// follows the first slash among its last 156 bytes, or to its first 155
/// bytes where there is no such slash. A path without a slash to split it at
/// goes into the prefix field if it is short enough, and is else chopped into
/// its last 100 bytes and the 155 before them.
#[verifier::opaque]
pub open spec fn legacy_filename(path: Seq<u8>) -> (Seq<u8>, Seq<u8>, bool) {
    let text = ascii_only(path).push(0);
    let lossy = !all_ascii(path);
    let len = text.len() as int;
    if len <= 100 {
        (padded(text, 100), zeros(155), lossy)
    } else {
        let split = first_slash(text, len - 99, len);
        if split < len {
            let name = padded(text.subrange(split + 1, len), 100);
            let dir = text.subrange(0, split);
            if dir.len() > 155 {
                let cut = first_slash(dir, dir.len() - 156, dir.len() as int);
                if cut < dir.len() {
                    (name, padded(dir.subrange(cut + 1, dir.len() as int), 155), true)
                } else {
                    (name, dir.subrange(0, 155), true)
                }
            } else {
                (name, padded(dir, 155), lossy)
            }
        } else if len < 155 {
            (zeros(100), padded(text, 155), lossy)
        } else {
            let cut = len - 100;
            let start = if cut >= 155 {
                cut - 155
            } else {
                0
            };
            (text.subrange(cut, len), padded(text.subrange(start, cut), 155), true)
        }
    }
}

/// The first place from `from` on where `text` holds a slash, or the length
/// of `text`.
fn find_slash(text: &Vec<u8>, from: usize) -> (place: usize)
    requires
        from <= text.len(),
    ensures
        place == first_slash(text@, from as int, text.len() as int),
        from <= place <= text.len(),
{
    let mut i: usize = from;
    while i < text.len()
        invariant
            from <= i <= text.len(),
            first_slash(text@, from as int, text.len() as int) == first_slash(
                text@,
                i as int,
                text.len() as int,
            ),
        decreases text.len() - i,
    {
        if text[i] == 47 {
            return i;
        }
        i += 1;
    }
    i
}

/// The ASCII bytes of `path` with a zero byte after them, and whether all of
/// its bytes are ASCII.
fn ascii_text(path: &[u8]) -> (result: (Vec<u8>, bool))
    ensures
        result.0@ == ascii_only(path@).push(0),
        result.1 == all_ascii(path@),
{
    let mut text: Vec<u8> = Vec::new();
    let mut plain = true;
    let mut i: usize = 0;
    while i < path.len()
        invariant
            i <= path.len(),
            text@ == ascii_only(path@.subrange(0, i as int)),
            plain == all_ascii(path@.subrange(0, i as int)),
        decreases path.len() - i,
    {
        let ghost prev = path@.subrange(0, i as int);
        let ghost next = path@.subrange(0, i + 1);
        assert(next.drop_last() =~= prev);
        assert(next.last() == path@[i as int]);
        if path[i] < 128 {
            text.push(path[i]);
            assert(plain ==> all_ascii(next)) by {
                if plain {
                    assert forall|j: int| 0 <= j < next.len() implies #[trigger] next[j] < 128 by {
                        if j < i {
                            assert(prev[j] < 128);
                        }
                    }
                }
            }
            assert(!plain ==> !all_ascii(next)) by {
                if !plain {
                    let j = choose|j: int| 0 <= j < prev.len() && !(#[trigger] prev[j] < 128);
                    assert(next[j] == prev[j]);
                }
            }
        } else {
            assert(!(next[i as int] < 128));
            plain = false;
        }
        i += 1;
    }
    assert(path@.subrange(0, i as int) =~= path@);
    text.push(0);
    (text, plain)
}

/// The name and prefix fields of a USTAR header for the name
/// `canonical_path` of an entry, and whether they fail to tell the name in
/// full. The first is 100 bytes long, and the second 155.
///
/// The fields hold the name as well as they can where they cannot hold it in
/// full, for readers that know nothing better.
pub fn format_pax_legacy_filename(canonical_path: &String) -> (result: Result<
    (Vec<u8>, Vec<u8>, bool),
    HeaderError,
>)
    ensures
        result matches Ok(fields) && (fields.0@, fields.1@, fields.2) == legacy_filename(
            encode_utf8(canonical_path@),
        ),
        result matches Ok(fields) && fields.0@.len() == 100 && fields.1@.len() == 155,
{
    reveal(legacy_filename);
    let (mut text, plain) = ascii_text(canonical_path.as_str().as_bytes());
    let len: usize = text.len();
    if len <= 100 {
        pad_to(&mut text, 100);
        return Ok((text, zero_bytes(155), !plain));
    }
    let split: usize = find_slash(&text, len - 99);
    if split < len {
        let mut name = copy_range(text.as_slice(), split + 1, len);
        pad_to(&mut name, 100);
        let mut dir = copy_range(text.as_slice(), 0, split);
        if dir.len() > 155 {
            let cut: usize = find_slash(&dir, dir.len() - 156);
            if cut < dir.len() {
                let mut prefix = copy_range(dir.as_slice(), cut + 1, dir.len());
                pad_to(&mut prefix, 155);
                return Ok((name, prefix, true));
            }
            let prefix = copy_range(dir.as_slice(), 0, 155);
            return Ok((name, prefix, true));
        }
        pad_to(&mut dir, 155);
        return Ok((name, dir, !plain));
    }
    if len < 155 {
        pad_to(&mut text, 155);
        return Ok((zero_bytes(100), text, !plain));
    }
    let cut: usize = len - 100;
    let start: usize = if cut >= 155 {
        cut - 155
    } else {
        0
    };
    let name = copy_range(text.as_slice(), cut, len);
    let mut prefix = copy_range(text.as_slice(), start, cut);
    pad_to(&mut prefix, 155);
    Ok((name, prefix, true))
}

/// The length of an attribute record of which all but the length at its
/// start takes `minimum` bytes: the record is as long as `minimum` and the
/// digits of its own length together.
pub open spec fn record_length(minimum: nat) -> nat {
    let count = digits_of(minimum, 10).len();
    if digits_of(minimum + count, 10).len() <= count {
        minimum + count
    } else {
        minimum + count + 1
    }
}

/// The length at the start of an attribute record counts itself: the record
/// is as long as the rest of it and the digits of its length together. It is
/// the least length of which that holds.
pub proof fn lemma_record_length_is_least_fixed_point(minimum: nat)
    ensures
        record_length(minimum) == minimum + decimal_length(record_length(minimum)),
        forall|length: nat|
            length == minimum + #[trigger] decimal_length(length) ==> record_length(minimum)
                <= length,
{
    let count = decimal_length(minimum);
    lemma_decimal_length_bounds(minimum);
    lemma_decimal_length_monotone(minimum, minimum + count);
    if decimal_length(minimum + count) > count {
        lemma_decimal_length_bounds(minimum + count);
        lemma_decimal_length_monotone(minimum + count, minimum + count + 1);
        lemma_power_has_room(count);
        assert(minimum + count >= pow(10, count)) by {
            if minimum + count < pow(10, count) {
                lemma_decimal_length_below(minimum + count, count);
            }
        }
        assert(minimum + count + 1 < pow(10, count + 1));
        lemma_decimal_length_below(minimum + count + 1, count + 1);
    }
    assert forall|length: nat|
        length == minimum + #[trigger] decimal_length(length) implies record_length(minimum)
        <= length by {
        lemma_decimal_length_bounds(length);
        lemma_decimal_length_monotone(minimum, length);
    }
}

/// One attribute of an extended header: the length of the record in decimal
/// digits, a space, the key, an equals sign, the value, and a newline.
pub open spec fn pax_record(key: Seq<u8>, val: Seq<u8>) -> Seq<u8> {
    digits_of(record_length(key.len() + val.len() + 3), 10) + seq![32u8] + key + seq![61u8] + val
        + seq![10u8]
}

/// The attribute record for `key` and `val`.
pub fn pax_attribute(key: &[u8], val: &[u8]) -> (record: Vec<u8>)
    ensures
        record@ == pax_record(key@, val@),
{
    let minimum: u128 = key.len() as u128 + val.len() as u128 + 3;
    let count: usize = digits(minimum, 10).len();
    let longer: usize = digits(minimum + count as u128, 10).len();
    let total: u128 = if longer <= count {
        minimum + count as u128
    } else {
        minimum + count as u128 + 1
    };
    let mut record = digits(total, 10);
    record.push(32);
    append_bytes(&mut record, key);
    record.push(61);
    append_bytes(&mut record, val);
    record.push(10);
    assert(record@ =~= pax_record(key@, val@));
    record
}

/// One attribute of a PAX extended header for `key` and `val`.
///
/// The record starts with its own length in decimal digits, which counts
/// those digits too: the length is the least number that is the digits of
/// itself longer than the rest of the record.
pub fn format_pax_attribute(key: &str, val: &str) -> (record: Vec<u8>)
    ensures
        record@ == pax_record(key.spec_bytes(), val.spec_bytes()),
{
    pax_attribute(key.as_bytes(), val.as_bytes())
}

/// A time as the value of an attribute: the seconds since 1970 in decimal
/// digits. A time before 1970 has none.
pub fn format_pax_time(dirtime: i64) -> (value: Result<Vec<u8>, HeaderError>)
    ensures
        match value {
            Ok(text) => dirtime >= 0 && text@ == digits_of(dirtime as nat, 10),
            Err(HeaderError::OlderThanEpoch) => dirtime < 0,
            Err(_) => false,
        },
{
    if dirtime < 0 {
        Err(HeaderError::OlderThanEpoch)
    } else {
        Ok(digits(dirtime as u128, 10))
    }
}

/// The attribute record for `key`, where there is a value for it.
pub open spec fn optional_record(key: Seq<u8>, val: Option<Seq<u8>>) -> Seq<u8> {
    match val {
        Some(text) => pax_record(key, text),
        None => Seq::empty(),
    }
}

/// A time as the value of an attribute, where the time is known.
pub open spec fn time_value(time: Option<i64>) -> Option<Seq<u8>> {
    match time {
        Some(seconds) => Some(digits_of(seconds as nat, 10)),
        None => None,
    }
}

/// None of the times of the header lies before 1970.
pub open spec fn times_valid(header: TarHeader) -> bool {
    &&& header.mtime matches Some(seconds) ==> seconds >= 0
    &&& header.atime matches Some(seconds) ==> seconds >= 0
    &&& header.birthtime matches Some(seconds) ==> seconds >= 0
}

/// The name of the entry as the archive spells it.
pub open spec fn entry_name(header: TarHeader) -> Seq<u8> {
    encode_utf8(canonical_text(header.path@, header.file_type))
}

/// What is left to write of a file that is taken up again: its whole size
/// less what earlier volumes hold.
pub open spec fn remaining_size(header: TarHeader) -> Option<nat> {
    match header.recovery_total_size {
        Some(total) => {
            let offset = match header.recovery_seek_offset {
                Some(offset) => offset,
                None => 0,
            };
            if offset <= total {
                Some((total - offset) as nat)
            } else {
                Some(0)
            }
        },
        None => None,
    }
}

/// The extended header for `header`: one attribute after the other.
///
/// `size` stands for a file that is too large for the size field; `path`
/// for a name that the name and prefix fields cannot tell in full; `mtime`,
/// `atime` and `LIBARCHIVE.creationtime` for each time that is known; and for
/// a file that is taken up again `GNU.volume.filename` names it,
/// `GNU.volume.size` tells what is left of it to write, and
/// `GNU.volume.offset` how much of it earlier volumes hold.
pub open spec fn extended_stream(header: TarHeader) -> Seq<u8> {
    ext_size(header) + ext_path(header) + optional_record(
        "mtime".spec_bytes(),
        time_value(header.mtime),
    ) + optional_record("atime".spec_bytes(), time_value(header.atime)) + optional_record(
        "LIBARCHIVE.creationtime".spec_bytes(),
        time_value(header.birthtime),
    ) + ext_filename(header) + ext_remaining(header) + ext_offset(header)
}

/// The attribute that tells the size of a file that is too large for the
/// size field.
pub open spec fn ext_size(header: TarHeader) -> Seq<u8> {
    if fits_octal(header.file_size as nat, 12) {
        Seq::empty()
    } else {
        pax_record("size".spec_bytes(), digits_of(header.file_size as nat, 10))
    }
}

/// The attribute that tells the name of an entry in full where the name and
/// prefix fields cannot.
pub open spec fn ext_path(header: TarHeader) -> Seq<u8> {
    if legacy_filename(entry_name(header)).2 {
        pax_record("path".spec_bytes(), entry_name(header))
    } else {
        Seq::empty()
    }
}

/// The attribute that names the file that an entry takes up again.
pub open spec fn ext_filename(header: TarHeader) -> Seq<u8> {
    match header.recovery_path {
        Some(path) => pax_record(
            "GNU.volume.filename".spec_bytes(),
            encode_utf8(canonical_text(path@, header.file_type)),
        ),
        None => Seq::empty(),
    }
}

/// The attribute that tells what is left to write of a file that is taken up
/// again.
pub open spec fn ext_remaining(header: TarHeader) -> Seq<u8> {
    match remaining_size(header) {
        Some(size) => pax_record("GNU.volume.size".spec_bytes(), digits_of(size, 10)),
        None => Seq::empty(),
    }
}

/// The attribute that tells how much of a file earlier volumes hold.
pub open spec fn ext_offset(header: TarHeader) -> Seq<u8> {
    match header.recovery_seek_offset {
        Some(offset) => pax_record(
            "GNU.volume.offset".spec_bytes(),
            digits_of(offset as nat, 10),
        ),
        None => Seq::empty(),
    }
}

/// `head` and `more` with a slash between them, where `head` holds a name;
/// else `more` alone.
pub open spec fn slash_joined(head: Seq<char>, named: bool, more: Seq<char>) -> Seq<char> {
    if named {
        head + seq!['/'] + more
    } else {
        more
    }
}

/// The name under which the extended header of an entry goes into the
/// archive: the name of the entry with `PaxHeaders` put before its last
/// component. A path of one component or less gets `./PaxHeaders` put before
/// it, unless it is a root or a prefix, which stays as it is.
pub open spec fn pax_name(parts: Seq<PathPart>, filetype: TarFileType) -> Seq<char> {
    let marker = "PaxHeaders"@;
    let text = if parts.len() > 1 {
        let before = parts.drop_last();
        match parts.last() {
            PathPart::Normal(name) => slash_joined(joined(before), has_named(before), marker)
                + seq!['/'] + name@,
            _ => slash_joined(joined(parts), has_named(parts), marker),
        }
    } else if parts.len() == 1 {
        match parts[0] {
            PathPart::RootDir => Seq::empty(),
            PathPart::Prefix(_) => part_text(parts[0]),
            PathPart::CurDir => seq!['.', '/'] + marker,
            _ => seq!['.', '/'] + marker + seq!['/'] + part_text(parts[0]),
        }
    } else {
        seq!['.', '/'] + marker
    };
    if filetype is Directory {
        text + seq!['/']
    } else {
        text
    }
}

/// Whether `parts` holds a component other than the root.
fn any_named(parts: &[PathPart]) -> (named: bool)
    ensures
        named == has_named(parts@),
{
    let mut named = false;
    let mut i: usize = 0;
    while i < parts.len()
        invariant
            i <= parts.len(),
            named == has_named(parts@.subrange(0, i as int)),
        decreases parts.len() - i,
    {
        assert(parts@.subrange(0, i + 1).drop_last() =~= parts@.subrange(0, i as int));
        match &parts[i] {
            PathPart::RootDir => {},
            _ => {
                named = true;
            },
        }
        i += 1;
    }
    assert(parts@.subrange(0, i as int) =~= parts@);
    named
}

/// The name under which the extended header of the entry at `parts` goes into
/// the archive.
pub fn pax_header_name(parts: &[PathPart], filetype: TarFileType) -> (text: String)
    ensures
        text@ == pax_name(parts@, filetype),
{
    let n: usize = parts.len();
    let mut text: String;
    if n > 1 {
        let before = vstd::slice::slice_subrange(parts, 0, n - 1);
        assert(before@ =~= parts@.drop_last());
        match &parts[n - 1] {
            PathPart::Normal(name) => {
                text = canonicalized_tar_path(before, TarFileType::FileStream);
                if any_named(before) {
                    text.append("/");
                }
                text.append("PaxHeaders");
                text.append("/");
                text.append(name.as_str());
                proof {
                    reveal_strlit("/");
                    assert("/"@ =~= seq!['/']);
                    if !has_named(before@) {
                        lemma_unnamed_is_empty(before@);
                    }
                    assert(text@ =~= slash_joined(
                        joined(before@),
                        has_named(before@),
                        "PaxHeaders"@,
                    ) + seq!['/'] + name@);
                }
            },
            _ => {
                text = canonicalized_tar_path(parts, TarFileType::FileStream);
                if any_named(parts) {
                    text.append("/");
                    text.append("PaxHeaders");
                } else {
                    text = String::from_str("PaxHeaders");
                }
                proof {
                    reveal_strlit("/");
                    assert("/"@ =~= seq!['/']);
                    assert(text@ =~= slash_joined(
                        joined(parts@),
                        has_named(parts@),
                        "PaxHeaders"@,
                    ));
                }
            },
        }
    } else if n == 1 {
        match &parts[0] {
            PathPart::RootDir => {
                text = String::new();
            },
            PathPart::Prefix(_) => {
                text = canonicalized_tar_path(parts, TarFileType::FileStream);
                assert(parts@.drop_last() =~= Seq::<PathPart>::empty());
                assert(joined(parts@) == part_text(parts@[0]));
            },
            PathPart::CurDir => {
                text = String::from_str("./");
                text.append("PaxHeaders");
                proof {
                    reveal_strlit("./");
                    assert("./"@ =~= seq!['.', '/']);
                }
            },
            _ => {
                text = String::from_str("./");
                text.append("PaxHeaders");
                text.append("/");
                let tail = canonicalized_tar_path(parts, TarFileType::FileStream);
                assert(parts@.drop_last() =~= Seq::<PathPart>::empty());
                assert(joined(parts@) == part_text(parts@[0]));
                text.append(tail.as_str());
                proof {
                    reveal_strlit("./");
                    reveal_strlit("/");
                    assert("./"@ =~= seq!['.', '/']);
                    assert("/"@ =~= seq!['/']);
                    assert(text@ =~= seq!['.', '/'] + "PaxHeaders"@ + seq!['/'] + part_text(
                        parts@[0],
                    ));
                }
            },
        }
    } else {
        text = String::from_str("./");
        text.append("PaxHeaders");
        proof {
            reveal_strlit("./");
            assert("./"@ =~= seq!['.', '/']);
        }
    }
    match filetype {
        TarFileType::Directory => {
            text.append("/");
            proof {
                reveal_strlit("/");
                assert("/"@ =~= seq!['/']);
            }
            assert(text@ =~= pax_name(parts@, filetype));
        },
        _ => {},
    }
    text
}

/// The fields of the record that stands before an extended header of
/// `length` bytes.
pub open spec fn extended_fields(header: TarHeader, length: u64) -> RecordFields {
    let names = legacy_filename(encode_utf8(pax_name(header.path@, header.file_type)));
    RecordFields {
        name: names.0,
        mode: gnu_or_zeros(header.unix_mode as u64, 8),
        uid: gnu_or_zeros(header.unix_uid as u64, 8),
        gid: gnu_or_zeros(header.unix_gid as u64, 8),
        size: gnu_or_zeros(length, 12),
        mtime: time_field(header.mtime),
        typeflag: 120,
        uname: text_field(encode_utf8(header.unix_uname@), 32),
        gname: text_field(encode_utf8(header.unix_gname@), 32),
        devmajor: gnu_or_zeros(header.unix_devmajor as u64, 8),
        devminor: gnu_or_zeros(header.unix_devminor as u64, 8),
        prefix: names.1,
    }
}

/// The fields of the record for the entry itself. Only a regular file has a
/// size.
pub open spec fn entry_fields(header: TarHeader) -> RecordFields {
    let names = legacy_filename(entry_name(header));
    RecordFields {
        name: names.0,
        mode: gnu_or_zeros(header.unix_mode as u64, 8),
        uid: gnu_or_zeros(header.unix_uid as u64, 8),
        gid: gnu_or_zeros(header.unix_gid as u64, 8),
        size: gnu_or_zeros(
            if header.file_type is FileStream {
                header.file_size
            } else {
                0
            },
            12,
        ),
        mtime: time_field(header.mtime),
        typeflag: header.file_type.flag() as u8,
        uname: text_field(encode_utf8(header.unix_uname@), 32),
        gname: text_field(encode_utf8(header.unix_gname@), 32),
        devmajor: gnu_or_zeros(header.unix_devmajor as u64, 8),
        devminor: gnu_or_zeros(header.unix_devminor as u64, 8),
        prefix: names.1,
    }
}

/// `stream` filled up with zero bytes to the next multiple of 512 bytes.
pub open spec fn block_padded(stream: Seq<u8>) -> Seq<u8> {
    if stream.len() % 512 == 0 {
        stream
    } else {
        stream + zeros((512 - stream.len() % 512) as nat)
    }
}

/// The PAX header for `header`: where there is anything to say in an
/// extended header, a record that announces it and the extended header
/// itself, filled up to whole records; then the record of the entry.
pub open spec fn pax_image(header: TarHeader) -> Seq<u8> {
    let stream = extended_stream(header);
    if stream.len() > 0 {
        extended_fields(header, stream.len() as u64).record() + block_padded(stream)
            + entry_fields(header).record()
    } else {
        entry_fields(header).record()
    }
}

/// Appends to `stream` the attribute for `key` with a number as its value.
fn push_number(stream: &mut Vec<u8>, key: &str, number: u64)
    ensures
        final(stream)@ == old(stream)@ + pax_record(
            key.spec_bytes(),
            digits_of(number as nat, 10),
        ),
{
    let text = digits(number as u128, 10);
    let record = pax_attribute(key.as_bytes(), text.as_slice());
    append_bytes(stream, record.as_slice());
}

/// Appends to `stream` the attribute for `key` with a time as its value,
/// where the time is known. Fails for a time before 1970.
fn push_time(stream: &mut Vec<u8>, key: &str, time: Option<i64>) -> (result: Result<
    (),
    HeaderError,
>)
    ensures
        match result {
            Ok(()) => (time matches Some(seconds) ==> seconds >= 0) && final(stream)@ == old(
                stream,
            )@ + optional_record(key.spec_bytes(), time_value(time)),
            Err(HeaderError::OlderThanEpoch) => time matches Some(seconds) && seconds < 0,
            Err(_) => false,
        },
{
    match time {
        Some(seconds) => {
            match format_pax_time(seconds) {
                Ok(text) => {
                    let record = pax_attribute(key.as_bytes(), text.as_slice());
                    append_bytes(stream, record.as_slice());
                    Ok(())
                },
                Err(error) => Err(error),
            }
        },
        None => {
            assert(stream@ + Seq::<u8>::empty() =~= stream@);
            Ok(())
        },
    }
}

/// The extended header for `tarheader`, whose name is `canonical_path`.
fn extended_header(tarheader: &TarHeader, canonical_path: &String, truncated: bool) -> (result:
    Result<Vec<u8>, HeaderError>)
    requires
        canonical_path@ == canonical_text(tarheader.path@, tarheader.file_type),
        truncated == legacy_filename(entry_name(*tarheader)).2,
    ensures
        match result {
            Ok(stream) => times_valid(*tarheader) && stream@ == extended_stream(*tarheader),
            Err(HeaderError::OlderThanEpoch) => !times_valid(*tarheader),
            Err(_) => false,
        },
{
    let mut stream: Vec<u8> = Vec::new();
    if format_tar_numeral(tarheader.file_size, 12).is_none() {
        push_number(&mut stream, "size", tarheader.file_size);
    }
    let ghost s1 = stream@;
    if truncated {
        let record = pax_attribute("path".as_bytes(), canonical_path.as_str().as_bytes());
        append_bytes(&mut stream, record.as_slice());
    }
    let ghost s2 = stream@;
    match push_time(&mut stream, "mtime", tarheader.mtime) {
        Ok(()) => {},
        Err(error) => {
            return Err(error);
        },
    }
    let ghost s3 = stream@;
    match push_time(&mut stream, "atime", tarheader.atime) {
        Ok(()) => {},
        Err(error) => {
            return Err(error);
        },
    }
    let ghost s4 = stream@;
    match push_time(&mut stream, "LIBARCHIVE.creationtime", tarheader.birthtime) {
        Ok(()) => {},
        Err(error) => {
            return Err(error);
        },
    }
    let ghost s5 = stream@;
    match &tarheader.recovery_path {
        Some(path) => {
            let spelled = canonicalized_tar_path(path.as_slice(), tarheader.file_type);
            let record = pax_attribute(
                "GNU.volume.filename".as_bytes(),
                spelled.as_str().as_bytes(),
            );
            append_bytes(&mut stream, record.as_slice());
        },
        None => {},
    }
    let ghost s6 = stream@;
    match tarheader.recovery_total_size {
        Some(total) => {
            let offset: u64 = match tarheader.recovery_seek_offset {
                Some(offset) => offset,
                None => 0,
            };
            let left: u64 = if offset <= total {
                total - offset
            } else {
                0
            };
            push_number(&mut stream, "GNU.volume.size", left);
        },
        None => {},
    }
    let ghost s7 = stream@;
    match tarheader.recovery_seek_offset {
        Some(offset) => {
            push_number(&mut stream, "GNU.volume.offset", offset);
        },
        None => {},
    }
    proof {
        let h = *tarheader;
        assert(s1 =~= ext_size(h));
        assert(s2 =~= s1 + ext_path(h));
        assert(s6 =~= s5 + ext_filename(h));
        assert(s7 =~= s6 + ext_remaining(h));
        assert(stream@ =~= s7 + ext_offset(h));
        assert(stream@ =~= extended_stream(h));
    }
    Ok(stream)
}

/// The fields that both records of a PAX header share.
struct SharedFields {
    mode: Vec<u8>,
    uid: Vec<u8>,
    gid: Vec<u8>,
    mtime: Vec<u8>,
    uname: Vec<u8>,
    gname: Vec<u8>,
    devmajor: Vec<u8>,
    devminor: Vec<u8>,
}

impl SharedFields {
    /// The fields are those of `header`.
    spec fn of(&self, header: TarHeader) -> bool {
        &&& self.mode@ == gnu_or_zeros(header.unix_mode as u64, 8)
        &&& self.uid@ == gnu_or_zeros(header.unix_uid as u64, 8)
        &&& self.gid@ == gnu_or_zeros(header.unix_gid as u64, 8)
        &&& self.mtime@ == time_field(header.mtime)
        &&& self.uname@ == text_field(encode_utf8(header.unix_uname@), 32)
        &&& self.gname@ == text_field(encode_utf8(header.unix_gname@), 32)
        &&& self.devmajor@ == gnu_or_zeros(header.unix_devmajor as u64, 8)
        &&& self.devminor@ == gnu_or_zeros(header.unix_devminor as u64, 8)
        &&& self.mode@.len() == 8
        &&& self.uid@.len() == 8
        &&& self.gid@.len() == 8
        &&& self.mtime@.len() == 12
        &&& self.uname@.len() == 32
        &&& self.gname@.len() == 32
        &&& self.devmajor@.len() == 8
        &&& self.devminor@.len() == 8
    }
}

fn shared_fields(tarheader: &TarHeader) -> (shared: SharedFields)
    ensures
        shared.of(*tarheader),
{
    SharedFields {
        mode: gnu_numeral_or_zeros(tarheader.unix_mode as u64, 8),
        uid: gnu_numeral_or_zeros(tarheader.unix_uid as u64, 8),
        gid: gnu_numeral_or_zeros(tarheader.unix_gid as u64, 8),
        mtime: format_time_field(tarheader.mtime),
        uname: format_text_field(tarheader.unix_uname.as_str().as_bytes(), 32),
        gname: format_text_field(tarheader.unix_gname.as_str().as_bytes(), 32),
        devmajor: gnu_numeral_or_zeros(tarheader.unix_devmajor as u64, 8),
        devminor: gnu_numeral_or_zeros(tarheader.unix_devminor as u64, 8),
    }
}

/// Fills `stream` up with zero bytes to the next multiple of 512 bytes.
fn pad_to_block(stream: &mut Vec<u8>)
    ensures
        final(stream)@ == block_padded(old(stream)@),
        final(stream)@.len() % 512 == 0,
{
    let over: usize = stream.len() % 512;
    if over != 0 {
        let mut k: usize = over;
        while k < 512
            invariant
                over <= k <= 512,
                over == old(stream)@.len() % 512,
                stream@ == old(stream)@ + zeros((k - over) as nat),
            decreases 512 - k,
        {
            stream.push(0);
            k += 1;
            assert(stream@ =~= old(stream)@ + zeros((k - over) as nat));
        }
    }
}

/// The record that announces the extended header `stream`, and `stream`
/// after it, filled up to whole records.
fn extended_part(tarheader: &TarHeader, shared: &SharedFields, stream: Vec<u8>) -> (result: Result<
    Vec<u8>,
    HeaderError,
>)
    requires
        shared.of(*tarheader),
        stream@.len() > 0,
    ensures
        match result {
            Ok(bytes) => {
                &&& stream@.len() <= u64::MAX
                &&& gnu_field(stream@.len() as u64, 12).is_some()
                &&& bytes@ == extended_fields(*tarheader, stream@.len() as u64).record()
                    + block_padded(stream@)
                &&& bytes@.len() % 512 == 0
            },
            Err(HeaderError::ExtendedHeaderTooLong) => stream@.len() > u64::MAX || gnu_field(
                stream@.len() as u64,
                12,
            ).is_none(),
            Err(_) => false,
        },
{
    if stream.len() as u128 > u64::MAX as u128 {
        return Err(HeaderError::ExtendedHeaderTooLong);
    }
    let length = match format_gnu_numeral(stream.len() as u64, 12) {
        Some(bytes) => bytes,
        None => {
            return Err(HeaderError::ExtendedHeaderTooLong);
        },
    };
    let pax_path = pax_header_name(tarheader.path.as_slice(), tarheader.file_type);
    let (name, prefix, _) = match format_pax_legacy_filename(&pax_path) {
        Ok(fields) => fields,
        Err(error) => {
            return Err(error);
        },
    };
    let mut header: Vec<u8> = Vec::new();
    push_record(
        &mut header,
        &name,
        &shared.mode,
        &shared.uid,
        &shared.gid,
        &length,
        &shared.mtime,
        120,
        &shared.uname,
        &shared.gname,
        &shared.devmajor,
        &shared.devminor,
        &prefix,
    );
    proof {
        let fields = extended_fields(*tarheader, stream@.len() as u64);
        assert(fields.name == name@);
        assert(fields.size == length@);
        assert(header@ =~= fields.record());
        assert(header@.len() == 512);
    }
    let mut stream = stream;
    pad_to_block(&mut stream);
    append_bytes(&mut header, stream.as_slice());
    Ok(header)
}

/// Appends to `out` the record of the entry itself.
fn push_entry_record(
    out: &mut Vec<u8>,
    tarheader: &TarHeader,
    shared: &SharedFields,
    name: &Vec<u8>,
    prefix: &Vec<u8>,
)
    requires
        shared.of(*tarheader),
        name@ == legacy_filename(entry_name(*tarheader)).0,
        prefix@ == legacy_filename(entry_name(*tarheader)).1,
        name@.len() == 100,
        prefix@.len() == 155,
    ensures
        final(out)@ == old(out)@ + entry_fields(*tarheader).record(),
        final(out)@.len() == old(out)@.len() + 512,
{
    let size = gnu_numeral_or_zeros(
        match tarheader.file_type {
            TarFileType::FileStream => tarheader.file_size,
            _ => 0,
        },
        12,
    );
    push_record(
        out,
        name,
        &shared.mode,
        &shared.uid,
        &shared.gid,
        &size,
        &shared.mtime,
        tarheader.file_type.type_byte(),
        &shared.uname,
        &shared.gname,
        &shared.devmajor,
        &shared.devminor,
        prefix,
    );
    proof {
        let fields = entry_fields(*tarheader);
        assert(fields.size == size@);
        assert(out@ =~= old(out)@ + fields.record());
        assert(fields.record().len() == 512);
    }
}

/// Whole records and one more are whole records.
proof fn lemma_one_more_record(length: nat)
    requires
        length % 512 == 0,
    ensures
        (length + 512) % 512 == 0,
{
}

/// The size field of the record before the extended header can tell its
/// length. A header without an extended header needs no such field.
pub open spec fn stream_fits(header: TarHeader) -> bool {
    let length = extended_stream(header).len();
    length > 0 ==> length <= u64::MAX && gnu_field(length as u64, 12).is_some()
}

/// Nothing put before bytes leaves the bytes.
proof fn lemma_empty_before(bytes: Seq<u8>)
    ensures
        Seq::<u8>::empty() + bytes == bytes,
{
    assert(Seq::<u8>::empty() + bytes =~= bytes);
}

/// The PAX header for `tarheader`: whole records of 512 bytes, each with a
/// blank checksum.
///
/// Fails with `OlderThanEpoch` where one of the times lies before 1970, and
/// with `ExtendedHeaderTooLong` where no size field can tell the length of
/// the extended header. A number that does not fit its field even in base
/// 256 leaves the field filled with zero bytes, and the names of user and
/// group are cut where they are too long.
pub fn pax_header(tarheader: &TarHeader) -> (result: Result<Vec<u8>, HeaderError>)
    ensures
        match result {
            Ok(bytes) => {
                &&& times_valid(*tarheader)
                &&& stream_fits(*tarheader)
                &&& bytes@ == pax_image(*tarheader)
                &&& bytes@.len() >= 512
                &&& bytes@.len() % 512 == 0
            },
            Err(HeaderError::OlderThanEpoch) => !times_valid(*tarheader),
            Err(HeaderError::ExtendedHeaderTooLong) => times_valid(*tarheader) && !stream_fits(
                *tarheader,
            ),
            Err(_) => false,
        },
{
    let canonical_path = canonicalized_tar_path(tarheader.path.as_slice(), tarheader.file_type);
    let (name, prefix, truncated) = match format_pax_legacy_filename(&canonical_path) {
        Ok(fields) => fields,
        Err(error) => {
            return Err(error);
        },
    };
    let stream = match extended_header(tarheader, &canonical_path, truncated) {
        Ok(stream) => stream,
        Err(error) => {
            return Err(error);
        },
    };
    let shared = shared_fields(tarheader);
    if stream.len() > 0 {
        let mut header = match extended_part(tarheader, &shared, stream) {
            Ok(bytes) => bytes,
            Err(error) => {
                return Err(error);
            },
        };
        let ghost before = header@.len();
        push_entry_record(&mut header, tarheader, &shared, &name, &prefix);
        assert(header@.len() == before + 512);
        proof {
            lemma_one_more_record(before);
        }
        Ok(header)
    } else {
        let mut header: Vec<u8> = Vec::new();
        push_entry_record(&mut header, tarheader, &shared, &name, &prefix);
        proof {
            lemma_empty_before(entry_fields(*tarheader).record());
        }
        assert(header@.len() == 512);
        Ok(header)
    }
}

/// A PAX header with the checksums filled in of its first record and, where
/// it has more than one, of its last.
pub open spec fn pax_checksummed(header: Seq<u8>) -> Seq<u8> {
    let first = checksummed_range(header, 0, 512);
    if header.len() >= 1024 {
        checksummed_range(first, header.len() - 512, header.len() as int)
    } else {
        first
    }
}

/// Fills in the checksums of a PAX header: that of the record at its start,
/// and that of the record at its end where there is a second one.
pub fn checksum_header(header: &mut Vec<u8>)
    requires
        old(header).len() >= 512,
    ensures
        final(header)@ == pax_checksummed(old(header)@),
        final(header)@.len() == old(header)@.len(),
{
    checksum_range(header, 0, 512);
    if header.len() >= 1024 {
        let header_len: usize = header.len();
        checksum_range(header, header_len - 512, header_len);
    }
}

} // verus!
