//! Numbers written out in ASCII digits.

use pad::{Alignment, PadStr};
use vstd::prelude::*;

verus! {

/// `base` to the power of `exp`.
pub open spec fn pow(base: nat, exp: nat) -> nat
    decreases exp,
{
    if exp == 0 {
        1
    } else {
        base * pow(base, (exp - 1) as nat)
    }
}

/// Dividing by two or more makes a number smaller, and leaves a remainder
/// below the divisor.
pub proof fn lemma_div_less(n: nat, base: nat)
    by (nonlinear_arith)
    requires
        2 <= base <= n,
    ensures
        n / base < n,
        n % base < base,
{
}

/// `n` written in the given base with ASCII digits, without leading zeros;
/// zero is written as one digit.
pub open spec fn digits_of(n: nat, base: nat) -> Seq<u8>
    decreases n,
{
    if base < 2 || n < base {
        seq![(48 + n % 10) as u8]
    } else {
        proof {
            lemma_div_less(n, base);
        }
        digits_of(n / base, base).push((48 + (n % base) % 10) as u8)
    }
}

/// Every byte of `text` is an ASCII digit.
pub open spec fn all_digits(text: Seq<u8>) -> bool {
    forall|i: int| 0 <= i < text.len() ==> 48 <= #[trigger] text[i] <= 57
}

/// `text` brought to a length of exactly `width`: zeros are put before a
/// shorter text, and of a longer text only the first `width` bytes are kept.
pub open spec fn zero_padded(text: Seq<u8>, width: nat) -> Seq<u8> {
    if text.len() >= width {
        text.subrange(0, width as int)
    } else {
        Seq::new((width - text.len()) as nat, |i: int| 48u8) + text
    }
}

/// The digits of a number are digits, and there is at least one.
pub proof fn lemma_digits_of(n: nat, base: nat)
    requires
        2 <= base <= 10,
    ensures
        all_digits(digits_of(n, base)),
        digits_of(n, base).len() >= 1,
    decreases n,
{
    if n >= base {
        lemma_div_less(n, base);
        lemma_digits_of(n / base, base);
    }
}

/// A number is below a power of the base exactly if its quotient by the base
/// is below the next lower power.
pub proof fn lemma_pow_step(n: nat, base: nat, exp: nat)
    requires
        base >= 2,
        exp >= 1,
    ensures
        (n < pow(base, exp)) == (n / base < pow(base, (exp - 1) as nat)),
{
    let p = pow(base, (exp - 1) as nat);
    assert(pow(base, exp) == base * p);
    assert((n < base * p) == (n / base < p)) by (nonlinear_arith)
        requires
            base >= 2,
    ;
}

/// The digits of `n` in the given base, most significant first.
pub fn digits(n: u128, base: u128) -> (text: Vec<u8>)
    requires
        2 <= base <= 10,
    ensures
        text@ == digits_of(n as nat, base as nat),
        text@.len() >= 1,
        all_digits(text@),
{
    let mut text: Vec<u8> = Vec::new();
    push_digits(n, base, &mut text);
    assert(text@ =~= digits_of(n as nat, base as nat));
    proof {
        lemma_digits_of(n as nat, base as nat);
    }
    text
}

fn push_digits(n: u128, base: u128, text: &mut Vec<u8>)
    requires
        2 <= base <= 10,
    ensures
        final(text)@ == old(text)@ + digits_of(n as nat, base as nat),
    decreases n,
{
    if n >= base {
        proof {
            lemma_div_less(n as nat, base as nat);
        }
        push_digits(n / base, base, text);
    }
    let ghost upper = text@;
    assert(n >= base ==> upper == old(text)@ + digits_of((n / base) as nat, base as nat));
    assert(n < base ==> upper == old(text)@);
    let digit: u128 = n % base;
    assert(digit < base) by (nonlinear_arith)
        requires
            digit == n % base,
            base >= 2,
    ;
    text.push((48 + digit) as u8);
    proof {
        let spec_digit = (48 + ((n as nat) % (base as nat)) % 10) as u8;
        assert(spec_digit == (48 + digit) as u8);
        assert(text@ == upper.push(spec_digit));
        assert((n as nat) / (base as nat) == (n / base) as nat);
        if n >= base {
            let high = digits_of((n / base) as nat, base as nat);
            assert(digits_of(n as nat, base as nat) == high.push(spec_digit));
            assert((old(text)@ + high).push(spec_digit) =~= old(text)@ + high.push(spec_digit));
        } else {
            assert((n as nat) % (base as nat) == n as nat) by (nonlinear_arith)
                requires
                    n < base,
            ;
            assert(digits_of(n as nat, base as nat) == seq![spec_digit]);
            assert(old(text)@.push(spec_digit) =~= old(text)@ + seq![spec_digit]);
        }
    }
}

/// Whether `n` can be written with `width` digits in the given base.
pub fn fits_digits(n: u64, base: u64, width: usize) -> (fits: bool)
    requires
        2 <= base,
    ensures
        fits == (n < pow(base as nat, width as nat)),
{
    let mut rest: u64 = n;
    let mut left: usize = width;
    while left > 0 && rest > 0
        invariant
            2 <= base,
            left <= width,
            (n < pow(base as nat, width as nat)) == (rest < pow(base as nat, left as nat)),
        decreases left,
    {
        proof {
            lemma_pow_step(rest as nat, base as nat, left as nat);
        }
        rest = rest / base;
        left = left - 1;
    }
    proof {
        lemma_pow_positive(base as nat, left as nat);
    }
    rest == 0
}

/// A power of a positive base is positive.
pub proof fn lemma_pow_positive(base: nat, exp: nat)
    requires
        base >= 1,
    ensures
        pow(base, exp) >= 1,
    decreases exp,
{
    if exp > 0 {
        lemma_pow_positive(base, (exp - 1) as nat);
        assert(base * pow(base, (exp - 1) as nat) >= 1) by (nonlinear_arith)
            requires
                base >= 1,
                pow(base, (exp - 1) as nat) >= 1,
        ;
    }
}

/// How many decimal digits a number has.
pub open spec fn decimal_length(n: nat) -> nat {
    digits_of(n, 10).len()
}

/// A larger number has no fewer digits.
pub proof fn lemma_decimal_length_monotone(a: nat, b: nat)
    requires
        a <= b,
    ensures
        decimal_length(a) <= decimal_length(b),
    decreases b,
{
    if b >= 10 && a >= 10 {
        lemma_div_less(a, 10);
        lemma_div_less(b, 10);
        lemma_decimal_length_monotone(a / 10, b / 10);
    }
}

/// A number is below ten to the power of the number of its digits, and a
/// number of two digits or more is no less than the power below that.
pub proof fn lemma_decimal_length_bounds(n: nat)
    ensures
        decimal_length(n) >= 1,
        n < pow(10, decimal_length(n)),
        n >= 10 ==> pow(10, (decimal_length(n) - 1) as nat) <= n,
    decreases n,
{
    reveal_with_fuel(pow, 3);
    if n >= 10 {
        lemma_div_less(n, 10);
        lemma_decimal_length_bounds(n / 10);
        let k = decimal_length(n / 10);
        assert(decimal_length(n) == k + 1);
        assert(pow(10, k + 1) == 10 * pow(10, k));
        assert(n < 10 * pow(10, k)) by (nonlinear_arith)
            requires
                n / 10 < pow(10, k),
        ;
        if n / 10 >= 10 {
            assert(pow(10, k) == 10 * pow(10, (k - 1) as nat));
            assert(10 * pow(10, (k - 1) as nat) <= n) by (nonlinear_arith)
                requires
                    pow(10, (k - 1) as nat) <= n / 10,
            ;
        } else {
            assert(k == 1);
        }
    }
}

/// A number below ten to the power of `count` has `count` digits at most.
pub proof fn lemma_decimal_length_below(n: nat, count: nat)
    requires
        count >= 1,
        n < pow(10, count),
    ensures
        decimal_length(n) <= count,
    decreases n,
{
    reveal_with_fuel(pow, 3);
    if n >= 10 {
        lemma_div_less(n, 10);
        assert(count >= 2) by {
            if count == 1 {
                assert(pow(10, 1) == 10);
            }
        }
        assert(pow(10, count) == 10 * pow(10, (count - 1) as nat));
        assert(n / 10 < pow(10, (count - 1) as nat)) by (nonlinear_arith)
            requires
                n < 10 * pow(10, (count - 1) as nat),
        ;
        lemma_decimal_length_below(n / 10, (count - 1) as nat);
    }
}

/// Ten to the power of `count` leaves room for `count` and one more above
/// itself below the next power.
pub proof fn lemma_power_has_room(count: nat)
    requires
        count >= 1,
    ensures
        pow(10, count) + count + 1 <= pow(10, count + 1),
        pow(10, count) >= 10 * count,
    decreases count,
{
    reveal_with_fuel(pow, 3);
    if count > 1 {
        lemma_power_has_room((count - 1) as nat);
        assert(pow(10, count) == 10 * pow(10, (count - 1) as nat));
    }
    assert(pow(10, count + 1) == 10 * pow(10, count));
}

/// `pad::PadStr::pad` on a text of ASCII digits, with `'0'` as the padding
/// character, `Alignment::Right` and truncation.
///
/// The crate measures a text in display columns and each ASCII digit is one
/// column wide, so the text is as wide as it is long. A text of at least
/// `width` columns is cut to its first `width` bytes; a shorter one gets as
/// many zeros put before it as it lacks.
#[verifier::external_body]
pub(crate) fn pad_zero_left(text: &[u8], width: usize) -> (out: Vec<u8>)
    requires
        all_digits(text@),
    ensures
        out@ == zero_padded(text@, width as nat),
{
    String::from_utf8_lossy(text).pad(width, '0', Alignment::Right, true).into_bytes()
}

} // verus!
