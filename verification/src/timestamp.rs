//! The timestamp generator: the current time as a 256-bit unsigned integer
//! in hexadecimal, `0x` followed by 64 lowercase digits.

use vstd::prelude::*;
use vstd::arithmetic::power::{lemma_pow_increases, lemma_pow_multiplies, pow};
use vstd::arithmetic::power2::{lemma2_to64, lemma_pow2};
use std::time::Duration;
use std::time::SystemTime;
use std::time::SystemTimeError;
use crate::error::{outcome_view, AssembleError};
use crate::lines::single_line;
use crate::text::to_text;

verus! {

/// The number of hexadecimal digits in a timestamp.
pub const TIMESTAMP_DIGITS: usize = 64;

/// The lowercase hexadecimal digit that stands for `d`, for `d` below 16.
pub open spec fn hex_digit(d: nat) -> char {
    if d < 10 {
        ('0' as nat + d) as char
    } else {
        ('a' as nat + d - 10) as char
    }
}

/// Whether `c` is a lowercase hexadecimal digit.
pub open spec fn is_lower_hex(c: char) -> bool {
    '0' <= c <= '9' || 'a' <= c <= 'f'
}

/// The number that the lowercase hexadecimal digit `c` stands for.
pub open spec fn digit_value(c: char) -> nat {
    if '0' <= c <= '9' {
        (c as nat - '0' as nat) as nat
    } else {
        (c as nat - 'a' as nat + 10) as nat
    }
}

/// The last `width` hexadecimal digits of `n`, most significant first, with
/// zeros in front where `n` has fewer.
pub open spec fn hex_padded(n: nat, width: nat) -> Seq<char>
    decreases width,
{
    if width == 0 {
        Seq::empty()
    } else {
        hex_padded(n / 16, (width - 1) as nat).push(hex_digit(n % 16))
    }
}

/// The number that the hexadecimal digits `s` stand for.
pub open spec fn hex_value(s: Seq<char>) -> nat
    decreases s.len(),
{
    if s.len() == 0 {
        0
    } else {
        16 * hex_value(s.drop_last()) + digit_value(s.last())
    }
}

/// The timestamp for a clock that reads `secs` seconds since the epoch.
pub open spec fn timestamp_text(secs: u64) -> Seq<char> {
    seq!['0', 'x'] + hex_padded(secs as nat, TIMESTAMP_DIGITS as nat)
}

/// Whether `s` has the form of a timestamp: 66 characters, of which the
/// first two are `0x` and the others are lowercase hexadecimal digits.
pub open spec fn is_timestamp(s: Seq<char>) -> bool {
    &&& s.len() == TIMESTAMP_DIGITS + 2
    &&& s[0] == '0'
    &&& s[1] == 'x'
    &&& forall|i: int| 2 <= i < s.len() ==> is_lower_hex(#[trigger] s[i])
}

/// The timestamp for a reading of the clock, in whole seconds since the
/// epoch, where there is no reading for a clock that is set before it.
pub open spec fn timestamp_of(reading: Option<u64>) -> Result<Seq<char>, AssembleError> {
    match reading {
        Some(secs) => Ok(timestamp_text(secs)),
        None => Err(AssembleError::ClockError),
    }
}

/// The number of seconds that the timestamp `s` stands for.
pub open spec fn timestamp_value(s: Seq<char>) -> nat {
    hex_value(s.skip(2))
}

/// `hex_padded(n, width)` has `width` digits, all lowercase hexadecimal.
proof fn lemma_hex_padded_shape(n: nat, width: nat)
    ensures
        hex_padded(n, width).len() == width,
        forall|i: int| 0 <= i < width ==> is_lower_hex(#[trigger] hex_padded(n, width)[i]),
    decreases width,
{
    if width > 0 {
        lemma_hex_padded_shape(n / 16, (width - 1) as nat);
    }
}

/// Where `n` has no more than `width` digits, they stand for `n`.
proof fn lemma_hex_padded_value(n: nat, width: nat)
    requires
        n < pow(16, width),
    ensures
        hex_value(hex_padded(n, width)) == n,
    decreases width,
{
    reveal(pow);
    if width > 0 {
        let front = hex_padded(n / 16, (width - 1) as nat);
        let p = pow(16, (width - 1) as nat);
        assert(n / 16 < p) by (nonlinear_arith)
            requires
                n < 16 * p,
        ;
        lemma_hex_padded_value(n / 16, (width - 1) as nat);
        assert(front.push(hex_digit(n % 16)).drop_last() =~= front);
        assert(digit_value(hex_digit(n % 16)) == n % 16);
    }
}

/// Every timestamp has the form of one.
pub proof fn lemma_timestamp_shape(secs: u64)
    ensures
        is_timestamp(timestamp_text(secs)),
{
    lemma_hex_padded_shape(secs as nat, TIMESTAMP_DIGITS as nat);
}

/// A timestamp stands for the clock reading it was made from. The values of
/// two timestamps are therefore ordered as the readings are: while the clock
/// does not go back, neither does the value of the timestamp.
pub proof fn lemma_timestamp_value(secs: u64)
    ensures
        timestamp_value(timestamp_text(secs)) == secs,
{
    lemma2_to64();
    lemma_pow2(4);
    lemma_pow2(64);
    lemma_pow_multiplies(2, 4, 16);
    lemma_pow_increases(16, 16, 64);
    lemma_hex_padded_value(secs as nat, TIMESTAMP_DIGITS as nat);
    assert(timestamp_text(secs).skip(2) =~= hex_padded(secs as nat, TIMESTAMP_DIGITS as nat));
}

/// A later reading gives a timestamp that stands for no smaller a number.
pub proof fn lemma_timestamp_order(earlier: u64, later: u64)
    requires
        earlier <= later,
    ensures
        timestamp_value(timestamp_text(earlier)) <= timestamp_value(timestamp_text(later)),
{
    lemma_timestamp_value(earlier);
    lemma_timestamp_value(later);
}

/// A timestamp holds no line feed, so it can stand in a line of the
/// document.
pub proof fn lemma_timestamp_single(s: Seq<char>)
    requires
        is_timestamp(s),
    ensures
        single_line(s),
{
    assert forall|j: int| 0 <= j < s.len() implies s[j] != '\n' by {
        if j >= 2 {
            assert(is_lower_hex(s[j]));
        }
    }
}

/// The lowercase hexadecimal digit for `d`.
fn hex_char(d: u8) -> (c: char)
    requires
        d < 16,
    ensures
        c == hex_digit(d as nat),
{
    if d < 10 {
        (48u8 + d) as char
    } else {
        (97u8 + (d - 10)) as char
    }
}

/// The timestamp for a clock that reads `secs` seconds since the epoch.
pub fn format_timestamp(secs: u64) -> (text: String)
    ensures
        text@ == timestamp_text(secs),
        is_timestamp(text@),
{
    let mut chars: Vec<char> = Vec::new();
    chars.push('0');
    chars.push('x');
    let mut filled: usize = 0;
    while filled < TIMESTAMP_DIGITS
        invariant
            filled <= TIMESTAMP_DIGITS,
            chars@.len() == filled + 2,
            chars@[0] == '0',
            chars@[1] == 'x',
        decreases TIMESTAMP_DIGITS - filled,
    {
        chars.push('0');
        filled += 1;
    }
    let mut rest: u64 = secs;
    let mut left: usize = TIMESTAMP_DIGITS;
    while left > 0
        invariant
            left <= TIMESTAMP_DIGITS,
            chars@.len() == TIMESTAMP_DIGITS + 2,
            chars@[0] == '0',
            chars@[1] == 'x',
            timestamp_text(secs) == seq!['0', 'x'] + hex_padded(rest as nat, left as nat)
                + chars@.skip(left + 2),
        decreases left,
    {
        let ghost before = chars@;
        let digit = hex_char((rest % 16) as u8);
        chars.set(left + 1, digit);
        proof {
            let front = hex_padded((rest / 16) as nat, (left - 1) as nat);
            assert(hex_padded(rest as nat, left as nat) == front.push(digit));
            assert(chars@.skip(left + 1) =~= seq![digit] + before.skip(left + 2));
            assert(seq!['0', 'x'] + front.push(digit) + before.skip(left + 2) =~= seq!['0', 'x']
                + front + chars@.skip(left + 1));
        }
        rest = rest / 16;
        left -= 1;
    }
    proof {
        assert(chars@ =~= seq!['0', 'x'] + chars@.skip(2));
        assert(hex_padded(rest as nat, 0) =~= Seq::empty());
        lemma_timestamp_shape(secs);
    }
    to_text(chars.as_slice())
}

/// `std::time::SystemTime`, a reading of the system clock. It is carried
/// from one call to the next and never looked into.
#[verifier::external_type_specification]
#[verifier::external_body]
pub struct ExSystemTime(SystemTime);

/// `std::time::SystemTimeError`, the failure of `SystemTime::duration_since`.
/// It is told apart from success and never looked into.
#[verifier::external_type_specification]
#[verifier::external_body]
pub struct ExSystemTimeError(SystemTimeError);

/// `SystemTime::now` reads the system clock. Nothing is claimed of the
/// reading.
pub assume_specification[ SystemTime::now ]() -> (now: SystemTime);

/// `SystemTime::duration_since` measures the time from `earlier` to `time`,
/// and fails where `earlier` is the later of the two. Nothing is claimed of
/// the outcome.
pub assume_specification[ SystemTime::duration_since ](
    time: &SystemTime,
    earlier: SystemTime,
) -> (elapsed: Result<Duration, SystemTimeError>);

/// `Duration::as_secs` gives the whole seconds in `duration`. Nothing is
/// claimed of their number.
pub assume_specification[ Duration::as_secs ](duration: &Duration) -> (secs: u64);

/// `std::time::UNIX_EPOCH`, the start of 1970 in UTC. Nothing is claimed of
/// the value.
#[verifier::external_body]
fn unix_epoch() -> (epoch: SystemTime) {
    std::time::UNIX_EPOCH
}

/// The timestamp for a reading of the clock: its text where there is a
/// reading, `ClockError` where there is none.
pub fn timestamp_from_reading(reading: Option<u64>) -> (r: Result<String, AssembleError>)
    ensures
        outcome_view(r) == timestamp_of(reading),
{
    match reading {
        Some(secs) => Ok(format_timestamp(secs)),
        None => Err(AssembleError::ClockError),
    }
}

/// The timestamp for the current reading of the system clock. Fails with
/// `ClockError` where the clock is set before the Unix epoch, and in no
/// other way.
pub fn get_current_timestamp() -> (r: Result<String, AssembleError>)
    ensures
        exists|reading: Option<u64>| outcome_view(r) == #[trigger] timestamp_of(reading),
        r matches Ok(text) ==> is_timestamp(text@),
        r matches Err(e) ==> e == AssembleError::ClockError,
{
    let now = SystemTime::now();
    let reading = match now.duration_since(unix_epoch()) {
        Ok(elapsed) => Some(elapsed.as_secs()),
        Err(_) => None,
    };
    let r = timestamp_from_reading(reading);
    proof {
        if let Some(secs) = reading {
            lemma_timestamp_shape(secs);
        }
    }
    r
}

} // verus!
