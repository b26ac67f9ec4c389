//! Lengths of time in words that people read.

use crate::digits::{digits, digits_of};
use crate::text::push_char;
use std::time::Duration;
use vstd::prelude::*;
use vstd::std_specs::convert::FromSpecImpl;
use vstd::string::StringExecFns;

verus! {

/// A length of time that can be written out in days, hours, minutes, seconds
/// and fractions of a second.
pub struct HRDuration {
    secs: u64,
    nanos: u32,
}

/// The decimal digits of `n` as characters.
pub open spec fn digit_chars(n: nat) -> Seq<char> {
    digits_of(n, 10).map_values(|digit: u8| digit as char)
}

/// A count with its unit, or nothing for a count of zero.
pub open spec fn unit_text(count: nat, unit: Seq<char>) -> Seq<char> {
    if count > 0 {
        digit_chars(count) + unit
    } else {
        Seq::empty()
    }
}

/// A length of time in words: each unit that is not zero with its count, the
/// largest first.
pub open spec fn duration_text(secs: nat, nanos: nat) -> Seq<char> {
    unit_text(secs / 86400, "d"@) + unit_text(secs % 86400 / 3600, "h"@) + unit_text(
        secs % 3600 / 60,
        "m"@,
    ) + unit_text(secs % 60, "s"@) + unit_text(nanos / 1000000, "ms"@) + unit_text(
        nanos % 1000000 / 1000,
        "μs"@,
    ) + unit_text(nanos % 1000, "ns"@)
}

/// The whole seconds of a duration of the standard library.
pub uninterp spec fn whole_seconds(duration: Duration) -> u64;

/// What a duration of the standard library has beyond its whole seconds, in
/// nanoseconds.
pub uninterp spec fn nanos_beyond(duration: Duration) -> u32;

/// `Duration::as_secs` of the standard library: the whole seconds of a
/// duration. The contract only gives the number its name.
#[verifier::external_body]
fn duration_secs(duration: &Duration) -> (secs: u64)
    ensures
        secs == whole_seconds(*duration),
{
    duration.as_secs()
}

/// `Duration::subsec_nanos` of the standard library: what a duration has
/// beyond its whole seconds, in nanoseconds. The contract gives the number
/// its name, and says that it is less than a second.
#[verifier::external_body]
fn duration_nanos(duration: &Duration) -> (nanos: u32)
    ensures
        nanos == nanos_beyond(*duration),
        nanos < 1_000_000_000,
{
    duration.subsec_nanos()
}

/// Appends to `text` the count `count` with its unit, unless the count is
/// zero.
fn push_unit(text: &mut String, count: u64, unit: &str)
    ensures
        final(text)@ == old(text)@ + unit_text(count as nat, unit@),
{
    if count > 0 {
        let number = digits(count as u128, 10);
        let ghost chars = digit_chars(count as nat);
        let mut i: usize = 0;
        while i < number.len()
            invariant
                i <= number.len(),
                number@ == digits_of(count as nat, 10),
                chars == digit_chars(count as nat),
                text@ == old(text)@ + chars.subrange(0, i as int),
            decreases number.len() - i,
        {
            push_char(text, number[i] as char);
            i += 1;
            assert(text@ =~= old(text)@ + chars.subrange(0, i as int));
        }
        assert(chars.subrange(0, i as int) =~= chars);
        text.append(unit);
        assert(text@ =~= old(text)@ + unit_text(count as nat, unit@));
    } else {
        assert(text@ =~= old(text)@ + unit_text(count as nat, unit@));
    }
}

impl HRDuration {
    /// The whole seconds of the length of time.
    pub closed spec fn secs(&self) -> nat {
        self.secs as nat
    }

    /// What the length of time has beyond its whole seconds, in
    /// nanoseconds.
    pub closed spec fn nanos(&self) -> nat {
        self.nanos as nat
    }

    /// A length of `secs` seconds and `nanos` nanoseconds.
    pub fn new(secs: u64, nanos: u32) -> (duration: HRDuration)
        ensures
            duration.secs() == secs,
            duration.nanos() == nanos,
    {
        HRDuration { secs, nanos }
    }

    /// The length of time in words, such as `12h30m14s`. A length of zero
    /// has no words.
    pub fn to_string(&self) -> (text: String)
        ensures
            text@ == duration_text(self.secs(), self.nanos()),
    {
        let total_secs: u64 = self.secs;
        let remain_nanos: u64 = self.nanos as u64;
        let mut text = String::new();
        push_unit(&mut text, total_secs / 86400, "d");
        push_unit(&mut text, total_secs % 86400 / 3600, "h");
        push_unit(&mut text, total_secs % 3600 / 60, "m");
        push_unit(&mut text, total_secs % 60, "s");
        push_unit(&mut text, remain_nanos / 1000000, "ms");
        push_unit(&mut text, remain_nanos % 1000000 / 1000, "μs");
        push_unit(&mut text, remain_nanos % 1000, "ns");
        assert(text@ =~= duration_text(self.secs(), self.nanos()));
        text
    }
}

impl From<Duration> for HRDuration {
    /// The length of `duration`: its whole seconds, and the nanoseconds
    /// beyond them, which are less than a second.
    fn from(duration: Duration) -> (result: HRDuration)
        ensures
            result.secs() == whole_seconds(duration),
            result.nanos() == nanos_beyond(duration),
            result.nanos() < 1_000_000_000,
    {
        HRDuration::new(duration_secs(&duration), duration_nanos(&duration))
    }
}

impl FromSpecImpl<Duration> for HRDuration {
    open spec fn obeys_from_spec() -> bool {
        true
    }

    closed spec fn from_spec(duration: Duration) -> HRDuration {
        HRDuration { secs: whole_seconds(duration), nanos: nanos_beyond(duration) }
    }
}

} // verus!
