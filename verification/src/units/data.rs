//! Sizes in bytes as a user writes them.

use crate::digits::{digits_of, lemma_digits_of, lemma_div_less};
use vstd::prelude::*;
use vstd::std_specs::convert::FromSpecImpl;
use vstd::string::StringSliceAdditionalSpecFns;

verus! {

/// A size in bytes that a user wrote.
#[derive(Clone, PartialEq)]
pub struct DataSize<I> {
    inner: I,
}

impl<I> DataSize<I> {
    /// The number that the size holds.
    pub closed spec fn value(self) -> I {
        self.inner
    }

    /// The size of `number` bytes.
    pub fn new(number: I) -> (size: DataSize<I>)
        ensures
            size.value() == number,
    {
        DataSize { inner: number }
    }

    pub fn into_inner(self) -> (number: I)
        ensures
            number == self.value(),
    {
        self.inner
    }
}

impl<I> From<I> for DataSize<I> {
    fn from(outer: I) -> (size: DataSize<I>) {
        DataSize { inner: outer }
    }
}

impl<I> FromSpecImpl<I> for DataSize<I> {
    open spec fn obeys_from_spec() -> bool {
        true
    }

    closed spec fn from_spec(outer: I) -> DataSize<I> {
        DataSize { inner: outer }
    }
}

/// That the size of `outer` bytes, made by `from`, holds `outer`.
pub broadcast proof fn lemma_from_holds<I>(outer: I)
    ensures
        (#[trigger] <DataSize<I> as vstd::std_specs::convert::FromSpec<I>>::from_spec(
            outer,
        )).value() == outer,
{
}

/// Why a text is no size.
#[derive(Copy, Clone, Debug, PartialEq, Eq)]
pub enum ParseSizeError {
    /// There is no number.
    Empty,
    /// The number holds something that is no digit.
    InvalidDigit,
    /// The size does not fit in 64 bits.
    Overflow,
}

/// The number that the decimal digits `text` stand for.
pub open spec fn decimal_value(text: Seq<u8>) -> nat
    decreases text.len(),
{
    if text.len() == 0 {
        0
    } else {
        decimal_value(text.drop_last()) * 10 + (text.last() - 48) as nat
    }
}

/// Every byte of `text` is a decimal digit.
pub open spec fn all_decimal(text: Seq<u8>) -> bool {
    forall|i: int| 0 <= i < text.len() ==> 48 <= #[trigger] text[i] <= 57
}

/// A number written in decimal digits is read back as the same number.
pub proof fn lemma_decimal_round_trip(n: nat)
    ensures
        all_decimal(digits_of(n, 10)),
        decimal_value(digits_of(n, 10)) == n,
    decreases n,
{
    lemma_digits_of(n, 10);
    let text = digits_of(n, 10);
    assert(all_decimal(text)) by {
        assert forall|i: int| 0 <= i < text.len() implies 48 <= #[trigger] text[i] <= 57 by {}
    }
    if n >= 10 {
        lemma_div_less(n, 10);
        lemma_decimal_round_trip(n / 10);
        let high = digits_of(n / 10, 10);
        assert(text == high.push((48 + (n % 10) % 10) as u8));
        assert(text.drop_last() =~= high);
    } else {
        assert(text == seq![(48 + n % 10) as u8]);
        assert(text.drop_last() =~= Seq::<u8>::empty());
        assert(decimal_value(text.drop_last()) == 0);
    }
}

/// The factor that a letter at the end of a size stands for: `k`, `m`, `g`
/// and `t`, small or capital, for the powers of 1024.
pub open spec fn unit_factor(letter: u8) -> Option<nat> {
    if letter == 107 || letter == 75 {
        Some(1024)
    } else if letter == 109 || letter == 77 {
        Some(1024 * 1024)
    } else if letter == 103 || letter == 71 {
        Some(1024 * 1024 * 1024)
    } else if letter == 116 || letter == 84 {
        Some(1024 * 1024 * 1024 * 1024)
    } else {
        None
    }
}

/// The digits of a number: `text` without a plus sign at its start.
pub open spec fn unsigned(text: Seq<u8>) -> Seq<u8> {
    if text.len() > 0 && text[0] == 43 {
        text.drop_first()
    } else {
        text
    }
}

/// The number that `text` stands for, or why it stands for none: decimal
/// digits, with a plus sign before them or without.
pub open spec fn number_value(text: Seq<u8>) -> Result<nat, ParseSizeError> {
    let text = unsigned(text);
    if text.len() == 0 {
        Err(ParseSizeError::Empty)
    } else if !all_decimal(text) {
        Err(ParseSizeError::InvalidDigit)
    } else if decimal_value(text) > u64::MAX {
        Err(ParseSizeError::Overflow)
    } else {
        Ok(decimal_value(text))
    }
}

/// The size that `text` stands for, or why it stands for none: a number,
/// and after it a letter for its unit or nothing.
pub open spec fn size_value(text: Seq<u8>) -> Result<nat, ParseSizeError> {
    if text.len() > 0 && unit_factor(text.last()).is_some() {
        match number_value(text.drop_last()) {
            Ok(number) => if number * unit_factor(text.last()).unwrap() > u64::MAX {
                Err(ParseSizeError::Overflow)
            } else {
                Ok(number * unit_factor(text.last()).unwrap())
            },
            Err(error) => Err(error),
        }
    } else {
        number_value(text)
    }
}

/// A digit more makes a number at least as large.
proof fn lemma_value_grows(text: Seq<u8>)
    requires
        all_decimal(text),
        text.len() > 0,
    ensures
        decimal_value(text) >= decimal_value(text.drop_last()),
{
    assert(48 <= text[text.len() - 1]);
}

/// A number that has grown beyond 64 bits stays beyond them, whatever
/// digits follow.
proof fn lemma_overflow_stays(text: Seq<u8>, i: int)
    requires
        all_decimal(text),
        0 <= i <= text.len(),
        decimal_value(text.subrange(0, i)) > u64::MAX,
    ensures
        decimal_value(text) > u64::MAX,
    decreases text.len() - i,
{
    if i < text.len() {
        let next = text.subrange(0, i + 1);
        assert(next.drop_last() =~= text.subrange(0, i));
        assert(all_decimal(next));
        lemma_value_grows(next);
        lemma_overflow_stays(text, i + 1);
    } else {
        assert(text.subrange(0, i) =~= text);
    }
}

/// The number that `text` stands for.
fn parse_number(text: &[u8]) -> (result: Result<u64, ParseSizeError>)
    ensures
        match result {
            Ok(number) => number_value(text@) == Ok::<nat, ParseSizeError>(number as nat),
            Err(error) => number_value(text@) == Err::<nat, ParseSizeError>(error),
        },
{
    let start: usize = if text.len() > 0 && text[0] == 43 {
        1
    } else {
        0
    };
    let ghost body = unsigned(text@);
    assert(body =~= text@.subrange(start as int, text@.len() as int));
    if start == text.len() {
        return Err(ParseSizeError::Empty);
    }
    let mut i: usize = start;
    while i < text.len()
        invariant
            start <= i <= text.len(),
            body == text@.subrange(start as int, text@.len() as int),
            body == unsigned(text@),
            all_decimal(body.subrange(0, i - start)),
        decreases text.len() - i,
    {
        if text[i] < 48 || text[i] > 57 {
            assert(body.len() == text@.len() - start);
            assert(body[i - start] == text@[i as int]);
            assert(!(48 <= body[i - start] <= 57));
            assert(!all_decimal(body));
            return Err(ParseSizeError::InvalidDigit);
        }
        assert forall|j: int| 0 <= j < i + 1 - start implies 48 <= #[trigger] body.subrange(
            0,
            i + 1 - start,
        )[j] <= 57 by {
            if j < i - start {
                assert(48 <= body.subrange(0, i - start)[j] <= 57);
            }
        }
        i += 1;
    }
    assert(body.subrange(0, body.len() as int) =~= body);
    let mut value: u64 = 0;
    let mut k: usize = start;
    while k < text.len()
        invariant
            start <= k <= text.len(),
            body == text@.subrange(start as int, text@.len() as int),
            body == unsigned(text@),
            all_decimal(body),
            value == decimal_value(body.subrange(0, k - start)),
        decreases text.len() - k,
    {
        let ghost next = body.subrange(0, k + 1 - start);
        assert(body.len() == text@.len() - start);
        assert(next.drop_last() =~= body.subrange(0, k - start));
        assert(next.last() == text@[k as int]);
        assert(48 <= body[k - start] <= 57);
        let digit: u64 = (text[k] - 48) as u64;
        if value > (u64::MAX - digit) / 10 {
            proof {
                assert(decimal_value(next) > u64::MAX);
                lemma_overflow_stays(body, k + 1 - start);
            }
            return Err(ParseSizeError::Overflow);
        }
        value = value * 10 + digit;
        k += 1;
    }
    assert(body.subrange(0, body.len() as int) =~= body);
    Ok(value)
}

impl DataSize<u64> {
    /// The size that `text` stands for: a number of bytes, or a number with
    /// one of the letters `k`, `m`, `g` and `t` after it for as many times
    /// 1024, 1024², 1024³ or 1024⁴ bytes.
    pub fn parse(text: &str) -> (result: Result<DataSize<u64>, ParseSizeError>)
        ensures
            match result {
                Ok(size) => size_value(text.spec_bytes()) == Ok::<nat, ParseSizeError>(
                    size.value() as nat,
                ),
                Err(error) => size_value(text.spec_bytes()) == Err::<nat, ParseSizeError>(error),
            },
    {
        let bytes = text.as_bytes();
        let n: usize = bytes.len();
        if n > 0 {
            let letter: u8 = bytes[n - 1];
            let factor: u64 = if letter == 107 || letter == 75 {
                1024
            } else if letter == 109 || letter == 77 {
                1024 * 1024
            } else if letter == 103 || letter == 71 {
                1024 * 1024 * 1024
            } else if letter == 116 || letter == 84 {
                1024 * 1024 * 1024 * 1024
            } else {
                0
            };
            if factor != 0 {
                let head = vstd::slice::slice_subrange(bytes, 0, n - 1);
                assert(head@ =~= bytes@.drop_last());
                return match parse_number(head) {
                    Ok(number) => {
                        if number > u64::MAX / factor {
                            assert(number * factor > u64::MAX) by (nonlinear_arith)
                                requires
                                    number > u64::MAX / factor,
                                    factor > 0,
                            ;
                            Err(ParseSizeError::Overflow)
                        } else {
                            assert(number * factor <= u64::MAX) by (nonlinear_arith)
                                requires
                                    number <= u64::MAX / factor,
                                    factor > 0,
                            ;
                            Ok(DataSize { inner: number * factor })
                        }
                    },
                    Err(error) => Err(error),
                };
            }
        }
        match parse_number(bytes) {
            Ok(number) => Ok(DataSize { inner: number }),
            Err(error) => Err(error),
        }
    }
}

impl std::str::FromStr for DataSize<u64> {
    type Err = ParseSizeError;

    /// The size that `s` stands for, as `parse` gives it.
    fn from_str(s: &str) -> (result: Result<Self, Self::Err>)
        ensures
            match result {
                Ok(size) => size_value(s.spec_bytes()) == Ok::<nat, ParseSizeError>(
                    size.value() as nat,
                ),
                Err(error) => size_value(s.spec_bytes()) == Err::<nat, ParseSizeError>(error),
            },
    {
        DataSize::parse(s)
    }
}

} // verus!
