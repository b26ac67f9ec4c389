//! Numbers as GNU tar writes them where octal digits do not suffice.

use crate::bytes::{zero_bytes, zeros};
use crate::digits::{fits_digits, pow};
use crate::tar::header::HeaderError;
use crate::tar::ustar::{fits_octal, format_tar_numeral, octal_field};
use vstd::prelude::*;

verus! {

/// A field of `size` bytes can hold `n` in base 256: the first byte is the
/// marker, and the number is below 256 to the power of the bytes that are
/// left.
pub open spec fn fits_base256(n: nat, size: nat) -> bool {
    size >= 1 && n < pow(256, (size - 1) as nat)
}

/// The byte of `n` that counts 256 to the power of `place`.
pub open spec fn base256_digit(n: u64, place: nat) -> u8 {
    if place < 8 {
        ((n >> ((place * 8) as u64)) & 0xff) as u8
    } else {
        0
    }
}

/// `n` in base 256 in a field of `size` bytes: the marker byte `0x80`, then
/// the bytes of the number, the most significant first.
pub open spec fn base256_field(n: u64, size: nat) -> Seq<u8> {
    Seq::new(
        size,
        |i: int|
            if i == 0 {
                0x80u8
            } else {
                base256_digit(n, (size - 1 - i) as nat)
            },
    )
}

/// What a numeric field of `size` bytes holds for `n`: octal digits where
/// they fit, else the number in base 256, and nothing where not even that
/// fits.
pub open spec fn gnu_field(n: u64, size: nat) -> Option<Seq<u8>> {
    if !fits_base256(n as nat, size) {
        None
    } else if fits_octal(n as nat, size) {
        Some(octal_field(n as nat, size))
    } else {
        Some(base256_field(n, size))
    }
}

/// `num_traits::CheckedShr::checked_shr` for `u64`: the value shifted right
/// by `bits`, and nothing where `bits` is 64 or more.
#[verifier::external_body]
fn checked_shr_u64(value: u64, bits: u32) -> (out: Option<u64>)
    ensures
        out == if bits < 64 {
            Some(value >> (bits as u64))
        } else {
            None::<u64>
        },
{
    num::traits::CheckedShr::checked_shr(&value, bits)
}

/// `num_traits::ToPrimitive::to_u8` for `u64`: the value as a byte, and
/// nothing where it is above 255.
#[verifier::external_body]
fn to_u8_checked(value: u64) -> (out: Option<u8>)
    ensures
        out == if value <= 255 {
            Some(value as u8)
        } else {
            None::<u8>
        },
{
    num_traits::cast::ToPrimitive::to_u8(&value)
}

/// The byte of `number` that counts 256 to the power of `place`.
fn base256_byte(number: u64, place: usize) -> (byte: u8)
    ensures
        byte == base256_digit(number, place as nat),
{
    let bits: u32 = if place < 8 {
        (place * 8) as u32
    } else {
        64
    };
    let shifted: u64 = match checked_shr_u64(number, bits) {
        Some(value) => value,
        None => 0,
    };
    let low: u64 = shifted & 0xff;
    assert(low <= 255) by (bit_vector)
        requires
            low == shifted & 0xff,
    ;
    assert(shifted == 0 ==> low == 0) by (bit_vector)
        requires
            low == shifted & 0xff,
    ;
    assert(place < 8 ==> shifted == number >> ((place * 8) as u64));
    match to_u8_checked(low) {
        Some(byte) => byte,
        None => 0,
    }
}

/// Writes `number` into a numeric field of `field_size` bytes, the way GNU
/// tar does.
///
/// A number that fits in octal digits is written as `format_tar_numeral`
/// writes it. A larger one is written in base 256: the byte `0x80`, then the
/// number as bytes, the most significant first. A number that is too large
/// even for that has no field.
pub fn format_gnu_numeral(number: u64, field_size: usize) -> (field: Option<Vec<u8>>)
    ensures
        match field {
            Some(bytes) => gnu_field(number, field_size as nat) == Some(bytes@),
            None => gnu_field(number, field_size as nat).is_none(),
        },
        field matches Some(bytes) ==> bytes@.len() == field_size,
{
    if field_size == 0 || !fits_digits(number, 256, field_size - 1) {
        return None;
    }
    match format_tar_numeral(number, field_size) {
        Some(bytes) => Some(bytes),
        None => {
            let mut result: Vec<u8> = Vec::new();
            result.push(0x80);
            let mut i: usize = 1;
            while i < field_size
                invariant
                    1 <= i <= field_size,
                    result@.len() == i,
                    result@[0] == 0x80u8,
                    forall|j: int|
                        1 <= j < i ==> result@[j] == base256_digit(
                            number,
                            (field_size - 1 - j) as nat,
                        ),
                decreases field_size - i,
            {
                result.push(base256_byte(number, field_size - 1 - i));
                i += 1;
            }
            assert(result@ =~= base256_field(number, field_size as nat));
            Some(result)
        },
    }
}

/// Writes a time into a field of twelve bytes, the way GNU tar does.
pub fn format_gnu_time(dirtime: i64) -> (field: Result<Vec<u8>, HeaderError>)
    ensures
        match field {
            Ok(bytes) => dirtime >= 0 && gnu_field(dirtime as u64, 12) == Some(bytes@),
            Err(HeaderError::OlderThanEpoch) => dirtime < 0,
            Err(HeaderError::NumeralTooLarge) => dirtime >= 0 && gnu_field(
                dirtime as u64,
                12,
            ).is_none(),
            Err(_) => false,
        },
{
    if dirtime < 0 {
        return Err(HeaderError::OlderThanEpoch);
    }
    match format_gnu_numeral(dirtime as u64, 12) {
        Some(bytes) => Ok(bytes),
        None => Err(HeaderError::NumeralTooLarge),
    }
}

/// A numeric field of `size` bytes for `n` as GNU tar writes it, or zero
/// bytes where `n` does not fit.
pub open spec fn gnu_or_zeros(n: u64, size: nat) -> Seq<u8> {
    match gnu_field(n, size) {
        Some(bytes) => bytes,
        None => zeros(size),
    }
}

/// The time field of a header: the seconds since 1970, zero where the time
/// is not known, and zero bytes for a time before 1970.
pub open spec fn time_field(time: Option<i64>) -> Seq<u8> {
    let seconds = match time {
        Some(seconds) => seconds,
        None => 0,
    };
    if seconds >= 0 {
        gnu_or_zeros(seconds as u64, 12)
    } else {
        zeros(12)
    }
}

/// A numeric field for `number` as GNU tar writes it, or zero bytes where
/// the number does not fit.
pub fn gnu_numeral_or_zeros(number: u64, field_size: usize) -> (field: Vec<u8>)
    ensures
        field@ == gnu_or_zeros(number, field_size as nat),
        field@.len() == field_size,
{
    match format_gnu_numeral(number, field_size) {
        Some(bytes) => bytes,
        None => zero_bytes(field_size),
    }
}

/// The time field of a header for `time`.
pub fn format_time_field(time: Option<i64>) -> (field: Vec<u8>)
    ensures
        field@ == time_field(time),
        field@.len() == 12,
{
    let seconds: i64 = match time {
        Some(seconds) => seconds,
        None => 0,
    };
    match format_gnu_time(seconds) {
        Ok(bytes) => bytes,
        Err(_) => zero_bytes(12),
    }
}

} // verus!
