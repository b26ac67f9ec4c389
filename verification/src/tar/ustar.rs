//! Headers in the USTAR format.

use crate::bytes::{copy_range, pad_to, padded, zero_bytes, zeros};
use crate::digits::{digits, digits_of, fits_digits, pad_zero_left, pow, zero_padded};
use crate::tar::gnu::{format_time_field, gnu_numeral_or_zeros, gnu_or_zeros, time_field};
use crate::tar::header::{HeaderError, TarFileType, TarHeader};
use crate::tar::record::{format_text_field, push_record, text_field, RecordFields};
use crate::tar::path::{canonical_text, canonicalized_tar_path, PathPart};
use crate::tar::pax::{format_pax_legacy_filename, legacy_filename};
use vstd::prelude::*;
use vstd::string::StringSliceAdditionalSpecFns;
use vstd::utf8::encode_utf8;

verus! {

/// A field of `size` bytes can hold `n` in octal digits: one byte is for the
/// zero byte at the end, and the number has no more digits than are left.
pub open spec fn fits_octal(n: nat, size: nat) -> bool {
    size >= 1 && n < pow(8, (size - 1) as nat)
}

/// `n` in a numeric field of `size` bytes: its octal digits, with zeros
/// before them to fill the field, and a zero byte at the end.
pub open spec fn octal_field(n: nat, size: nat) -> Seq<u8> {
    zero_padded(digits_of(n, 8), (size - 1) as nat).push(0)
}

/// Writes `number` into a numeric field of `field_size` bytes: octal digits,
/// with zeros before them to fill the field, and a zero byte at the end.
///
/// A number with more digits than the field has room for has no field.
pub fn format_tar_numeral(number: u64, field_size: usize) -> (field: Option<Vec<u8>>)
    ensures
        match field {
            Some(bytes) => fits_octal(number as nat, field_size as nat) && bytes@ == octal_field(
                number as nat,
                field_size as nat,
            ),
            None => !fits_octal(number as nat, field_size as nat),
        },
        field matches Some(bytes) ==> bytes@.len() == field_size,
{
    if field_size == 0 || !fits_digits(number, 8, field_size - 1) {
        return None;
    }
    let text = digits(number as u128, 8);
    let mut value = pad_zero_left(text.as_slice(), field_size - 1);
    value.push(0);
    Some(value)
}

/// Writes `the_string` into a text field of `field_size` bytes, with zero
/// bytes after it to fill the field. A text that leaves no room for a zero
/// byte has no field.
pub fn format_tar_string(the_string: &str, field_size: usize) -> (field: Option<Vec<u8>>)
    ensures
        match field {
            Some(bytes) => the_string.spec_bytes().len() < field_size && bytes@ == padded(
                the_string.spec_bytes(),
                field_size as nat,
            ),
            None => the_string.spec_bytes().len() >= field_size,
        },
        field matches Some(bytes) ==> bytes@.len() == field_size,
{
    let text = the_string.as_bytes();
    if text.len() < field_size {
        let mut result = copy_range(text, 0, text.len());
        assert(result@ =~= text@);
        pad_to(&mut result, field_size);
        Some(result)
    } else {
        None
    }
}

/// Writes a time into a numeric field of twelve bytes.
pub fn format_tar_time(dirtime: i64) -> (field: Result<Vec<u8>, HeaderError>)
    ensures
        match field {
            Ok(bytes) => dirtime >= 0 && fits_octal(dirtime as nat, 12) && bytes@ == octal_field(
                dirtime as nat,
                12,
            ),
            Err(HeaderError::OlderThanEpoch) => dirtime < 0,
            Err(HeaderError::NumeralTooLarge) => dirtime >= 0 && !fits_octal(dirtime as nat, 12),
            Err(_) => false,
        },
{
    if dirtime < 0 {
        return Err(HeaderError::OlderThanEpoch);
    }
    match format_tar_numeral(dirtime as u64, 12) {
        Some(bytes) => Ok(bytes),
        None => Err(HeaderError::NumeralTooLarge),
    }
}

/// The name and prefix fields of a USTAR header for the path `dirpath`.
///
/// Fails where the two fields cannot tell the path in full: it holds a
/// character outside ASCII, or it is too long and cannot be split to fit.
pub fn format_tar_filename(dirpath: &[PathPart], filetype: TarFileType) -> (result: Result<
    (Vec<u8>, Vec<u8>),
    HeaderError,
>)
    ensures
        match result {
            Ok(fields) => {
                let legacy = legacy_filename(encode_utf8(canonical_text(dirpath@, filetype)));
                !legacy.2 && fields.0@ == legacy.0 && fields.1@ == legacy.1
                    && fields.0@.len() == 100 && fields.1@.len() == 155
            },
            Err(HeaderError::NameTooLong) => legacy_filename(
                encode_utf8(canonical_text(dirpath@, filetype)),
            ).2,
            Err(_) => false,
        },
{
    let canonical_path = canonicalized_tar_path(dirpath, filetype);
    match format_pax_legacy_filename(&canonical_path) {
        Ok((unix, prefix, was_truncated)) => {
            if was_truncated {
                Err(HeaderError::NameTooLong)
            } else {
                Ok((unix, prefix))
            }
        },
        Err(error) => Err(error),
    }
}

/// What the name and prefix fields hold for the path of a header, and
/// whether they fail to tell it in full.
pub open spec fn header_names(header: TarHeader) -> (Seq<u8>, Seq<u8>, bool) {
    legacy_filename(encode_utf8(canonical_text(header.path@, header.file_type)))
}

/// The fields of the USTAR header for `header`.
pub open spec fn ustar_fields(header: TarHeader) -> RecordFields {
    RecordFields {
        name: header_names(header).0,
        mode: gnu_or_zeros(header.unix_mode as u64, 8),
        uid: gnu_or_zeros(header.unix_uid as u64, 8),
        gid: gnu_or_zeros(header.unix_gid as u64, 8),
        size: gnu_or_zeros(header.file_size, 12),
        mtime: time_field(header.mtime),
        typeflag: header.file_type.flag() as u8,
        uname: text_field(encode_utf8(header.unix_uname@), 32),
        gname: text_field(encode_utf8(header.unix_gname@), 32),
        devmajor: gnu_or_zeros(header.unix_devmajor as u64, 8),
        devminor: gnu_or_zeros(header.unix_devminor as u64, 8),
        prefix: header_names(header).1,
    }
}

/// The USTAR header for `tarheader`: one record of 512 bytes, with a blank
/// checksum.
///
/// Fails with `NameTooLong` where the name and prefix fields cannot tell the
/// path in full. A number is written in octal digits where they fit its
/// field, and else in base 256. A time before 1970 leaves its field filled
/// with zero bytes, and the names of user and group are cut where they are
/// too long.
pub fn ustar_header(tarheader: &TarHeader) -> (result: Result<Vec<u8>, HeaderError>)
    ensures
        match result {
            Ok(bytes) => {
                &&& !header_names(*tarheader).2
                &&& bytes@ == ustar_fields(*tarheader).record()
                &&& bytes@.len() == 512
            },
            Err(HeaderError::NameTooLong) => header_names(*tarheader).2,
            Err(_) => false,
        },
{
    let (name, prefix) = match format_tar_filename(
        tarheader.path.as_slice(),
        tarheader.file_type,
    ) {
        Ok(fields) => fields,
        Err(error) => {
            return Err(error);
        },
    };
    let mode = gnu_numeral_or_zeros(tarheader.unix_mode as u64, 8);
    let uid = gnu_numeral_or_zeros(tarheader.unix_uid as u64, 8);
    let gid = gnu_numeral_or_zeros(tarheader.unix_gid as u64, 8);
    let size = gnu_numeral_or_zeros(tarheader.file_size, 12);
    let mtime = format_time_field(tarheader.mtime);
    let uname = format_text_field(tarheader.unix_uname.as_str().as_bytes(), 32);
    let gname = format_text_field(tarheader.unix_gname.as_str().as_bytes(), 32);
    let devmajor = gnu_numeral_or_zeros(tarheader.unix_devmajor as u64, 8);
    let devminor = gnu_numeral_or_zeros(tarheader.unix_devminor as u64, 8);
    let mut header: Vec<u8> = Vec::new();
    push_record(
        &mut header,
        &name,
        &mode,
        &uid,
        &gid,
        &size,
        &mtime,
        tarheader.file_type.type_byte(),
        &uname,
        &gname,
        &devmajor,
        &devminor,
        &prefix,
    );
    proof {
        let fields = ustar_fields(*tarheader);
        assert(fields.name == name@);
        assert(header@ =~= fields.record());
    }
    Ok(header)
}

/// The sum of the bytes of `bytes`.
pub open spec fn byte_sum(bytes: Seq<u8>) -> nat
    decreases bytes.len(),
{
    if bytes.len() == 0 {
        0
    } else {
        byte_sum(bytes.drop_last()) + bytes.last() as nat
    }
}

/// A header record with spaces where its checksum stands.
pub open spec fn blanked(record: Seq<u8>) -> Seq<u8> {
    record.subrange(0, 148) + Seq::new(8, |i: int| 32u8) + record.subrange(
        156,
        record.len() as int,
    )
}

/// The checksum of a header record: the low 18 bits of the sum of its bytes,
/// taken with spaces where the checksum stands.
pub open spec fn checksum_of(record: Seq<u8>) -> nat {
    byte_sum(blanked(record)) % 0x40000
}

/// A header record with its checksum filled in: six octal digits, a zero
/// byte and a space.
pub open spec fn checksummed(record: Seq<u8>) -> Seq<u8> {
    record.subrange(0, 148) + octal_field(checksum_of(record), 7) + seq![32u8] + record.subrange(
        156,
        record.len() as int,
    )
}

/// `data` with the checksum filled in of the record that it holds from place
/// `start` up to place `end`.
pub open spec fn checksummed_range(data: Seq<u8>, start: int, end: int) -> Seq<u8> {
    data.subrange(0, start) + checksummed(data.subrange(start, end)) + data.subrange(
        end,
        data.len() as int,
    )
}

/// Adding a byte to a sum that is kept below a modulus gives the same as
/// taking the whole sum and reducing it once.
proof fn lemma_sum_step(total: nat, byte: nat, modulus: nat)
    requires
        modulus > 0,
        byte < modulus,
    ensures
        (total % modulus + byte) % modulus == (total + byte) % modulus,
{
    vstd::arithmetic::div_mod::lemma_add_mod_noop(total as int, byte as int, modulus as int);
    vstd::arithmetic::div_mod::lemma_small_mod(byte, modulus);
}

/// Fills in the checksum of the header record that `header` holds from place
/// `start` up to place `end`.
pub fn checksum_range(header: &mut Vec<u8>, start: usize, end: usize)
    requires
        start + 156 <= end <= old(header).len(),
    ensures
        final(header)@ == checksummed_range(old(header)@, start as int, end as int),
        final(header)@.len() == old(header)@.len(),
{
    let ghost record = header@.subrange(start as int, end as int);
    let mut i: usize = 0;
    while i < 8
        invariant
            i <= 8,
            start + 156 <= end <= header.len(),
            header@.len() == old(header)@.len(),
            header@ == old(header)@.subrange(0, start + 148) + Seq::new(i as nat, |j: int| 32u8)
                + old(header)@.subrange(start + 148 + i, old(header)@.len() as int),
        decreases 8 - i,
    {
        header.set(start + 148 + i, 32);
        i += 1;
        assert(header@ =~= old(header)@.subrange(0, start + 148) + Seq::new(
            i as nat,
            |j: int| 32u8,
        ) + old(header)@.subrange(start + 148 + i, old(header)@.len() as int));
    }
    assert(header@.subrange(start as int, end as int) =~= blanked(record));
    let mut sum: u64 = 0;
    let mut k: usize = start;
    while k < end
        invariant
            start <= k <= end <= header.len(),
            sum < 0x40000,
            sum == byte_sum(header@.subrange(start as int, k as int)) % 0x40000,
        decreases end - k,
    {
        let ghost prev = header@.subrange(start as int, k as int);
        let ghost next = header@.subrange(start as int, k + 1);
        proof {
            assert(next.drop_last() =~= prev);
            assert(next.last() == header@[k as int]);
            lemma_sum_step(byte_sum(prev), header@[k as int] as nat, 0x40000);
        }
        sum = (sum + header[k] as u64) % 0x40000;
        k += 1;
    }
    assert(sum == checksum_of(record));
    proof {
        lemma_fits_six_digits(sum as nat);
    }
    let field = match format_tar_numeral(sum, 7) {
        Some(bytes) => bytes,
        None => zero_bytes(7),
    };
    let ghost blank = header@;
    let mut j: usize = 0;
    while j < 7
        invariant
            j <= 7,
            field@.len() == 7,
            blank.len() == old(header)@.len(),
            start + 156 <= end <= header.len(),
            header@.len() == old(header)@.len(),
            header@ == blank.subrange(0, start + 148) + field@.subrange(0, j as int)
                + blank.subrange(start + 148 + j, blank.len() as int),
        decreases 7 - j,
    {
        header.set(start + 148 + j, field[j]);
        j += 1;
        assert(header@ =~= blank.subrange(0, start + 148) + field@.subrange(0, j as int)
            + blank.subrange(start + 148 + j, blank.len() as int));
    }
    assert(header@ =~= checksummed_range(old(header)@, start as int, end as int));
}

/// A number below two to the power of 18 has six octal digits at most.
proof fn lemma_fits_six_digits(n: nat)
    requires
        n < 0x40000,
    ensures
        fits_octal(n, 7),
{
    assert(pow(8, 6) == 0x40000) by {
        reveal_with_fuel(pow, 7);
    }
}

/// Fills in the checksum of a header: the low 18 bits of the sum of all its
/// bytes, taken with spaces where the checksum stands, as six octal digits
/// with a zero byte and a space after them.
pub fn checksum_header(header: &mut Vec<u8>)
    requires
        old(header).len() >= 156,
    ensures
        final(header)@ == checksummed(old(header)@),
{
    let end: usize = header.len();
    checksum_range(header, 0, end);
    assert(header@ =~= checksummed(old(header)@)) by {
        assert(old(header)@.subrange(0, end as int) =~= old(header)@);
    }
}

} // verus!
