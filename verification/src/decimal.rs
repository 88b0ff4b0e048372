//! Unsigned integers in decimal notation: writing them, and reading them
//! back with the strictness of Rust's own integer parsing.

use crate::text::chars_of;
use vstd::prelude::*;

verus! {

/// Why a text is not an unsigned integer within its bound.
#[derive(Clone, Copy, PartialEq, Eq, Debug)]
pub enum NumberError {
    /// The text is empty.
    Empty,
    /// A character is not a digit, or a sign stands alone.
    InvalidDigit,
    /// The digits read so far already exceed the bound.
    TooLarge,
}

/// The character that writes the digit `d`.
pub open spec fn digit_char(d: nat) -> char
    recommends
        d < 10,
{
    if d == 0 {
        '0'
    } else if d == 1 {
        '1'
    } else if d == 2 {
        '2'
    } else if d == 3 {
        '3'
    } else if d == 4 {
        '4'
    } else if d == 5 {
        '5'
    } else if d == 6 {
        '6'
    } else if d == 7 {
        '7'
    } else if d == 8 {
        '8'
    } else {
        '9'
    }
}

/// The digit that `c` writes, if it writes one.
pub open spec fn digit_value(c: char) -> Option<nat> {
    if c == '0' {
        Some(0)
    } else if c == '1' {
        Some(1)
    } else if c == '2' {
        Some(2)
    } else if c == '3' {
        Some(3)
    } else if c == '4' {
        Some(4)
    } else if c == '5' {
        Some(5)
    } else if c == '6' {
        Some(6)
    } else if c == '7' {
        Some(7)
    } else if c == '8' {
        Some(8)
    } else if c == '9' {
        Some(9)
    } else {
        None
    }
}

/// `c` is one of the ten decimal digits.
pub open spec fn is_digit(c: char) -> bool {
    digit_value(c) is Some
}

/// Every character of `s` is a decimal digit.
pub open spec fn all_digits(s: Seq<char>) -> bool {
    forall|i: int| 0 <= i < s.len() ==> is_digit(#[trigger] s[i])
}

/// The decimal notation of `n`, without sign or leading zeros.
pub open spec fn decimal(n: nat) -> Seq<char>
    decreases n,
{
    if n < 10 {
        seq![digit_char(n)]
    } else {
        decimal(n / 10).push(digit_char(n % 10))
    }
}

/// The number that a run of digits writes; leading zeros count for nothing,
/// and the empty run writes zero.
pub open spec fn digits_value(s: Seq<char>) -> nat
    decreases s.len(),
{
    if s.len() == 0 {
        0
    } else {
        let last = match digit_value(s.last()) {
            Some(d) => d,
            None => 0,
        };
        digits_value(s.drop_last()) * 10 + last
    }
}

/// How many digits stand at the start of `s` before the first other
/// character.
pub open spec fn digit_run(s: Seq<char>) -> nat
    decreases s.len(),
{
    if s.len() == 0 || !is_digit(s[0]) {
        0
    } else {
        1 + digit_run(s.skip(1))
    }
}

/// `s` without the `+` that may stand at its start.
pub open spec fn unsigned_part(s: Seq<char>) -> Seq<char> {
    if s.len() > 0 && s[0] == '+' {
        s.skip(1)
    } else {
        s
    }
}

/// What reading `s` as an unsigned integer no larger than `max` gives: an
/// optional `+`, then digits and nothing else. Reading goes from the left
/// and stops at the first fault, so digits that exceed `max` are reported
/// even where a bad character follows them.
pub open spec fn parse_number(s: Seq<char>, max: nat) -> Result<nat, NumberError> {
    if s.len() == 0 {
        Err(NumberError::Empty)
    } else {
        let body = unsigned_part(s);
        let run = digit_run(body);
        let value = digits_value(body.take(run as int));
        if body.len() == 0 {
            Err(NumberError::InvalidDigit)
        } else if value > max {
            Err(NumberError::TooLarge)
        } else if run < body.len() {
            Err(NumberError::InvalidDigit)
        } else {
            Ok(value)
        }
    }
}

/// The words in which Rust's standard library reports the same fault.
pub open spec fn error_text(e: NumberError) -> Seq<char> {
    match e {
        NumberError::Empty => "cannot parse integer from empty string"@,
        NumberError::InvalidDigit => "invalid digit found in string"@,
        NumberError::TooLarge => "number too large to fit in target type"@,
    }
}

/// A digit's character is read back as that digit.
pub proof fn lemma_digit_round_trip(d: nat)
    requires
        d < 10,
    ensures
        digit_value(digit_char(d)) == Some(d),
{
}

/// The digit run of `s` is at least `k` where the first `k` characters are
/// digits, and exactly `k` where the text ends there or goes on with
/// something else.
pub proof fn lemma_digit_run(s: Seq<char>, k: int)
    requires
        0 <= k <= s.len(),
        forall|j: int| 0 <= j < k ==> is_digit(#[trigger] s[j]),
    ensures
        digit_run(s) >= k,
        (k == s.len() || !is_digit(s[k])) ==> digit_run(s) == k,
    decreases k,
{
    if k > 0 {
        let rest = s.skip(1);
        assert forall|j: int| 0 <= j < k - 1 implies is_digit(#[trigger] rest[j]) by {}
        lemma_digit_run(rest, k - 1);
    }
}

/// The digit run of a text is no longer than the text.
pub proof fn lemma_digit_run_bound(s: Seq<char>)
    ensures
        digit_run(s) <= s.len(),
    decreases s.len(),
{
    if s.len() > 0 && is_digit(s[0]) {
        lemma_digit_run_bound(s.skip(1));
    }
}

/// A longer start of a text never writes a smaller number.
pub proof fn lemma_value_grows(s: Seq<char>, i: int, j: int)
    requires
        0 <= i <= j <= s.len(),
    ensures
        digits_value(s.take(i)) <= digits_value(s.take(j)),
    decreases j - i,
{
    if i < j {
        lemma_value_grows(s, i, j - 1);
        assert(s.take(j).drop_last() =~= s.take(j - 1));
    }
}

/// The decimal notation of a number is one digit or more, all of them
/// digits, and writes that number.
pub proof fn lemma_decimal(n: nat)
    ensures
        decimal(n).len() >= 1,
        all_digits(decimal(n)),
        digits_value(decimal(n)) == n,
    decreases n,
{
    if n < 10 {
        let s = decimal(n);
        lemma_digit_round_trip(n);
        assert(digits_value(s.drop_last()) == 0);
    } else {
        lemma_decimal(n / 10);
        lemma_digit_round_trip(n % 10);
        let s = decimal(n);
        assert(s.drop_last() =~= decimal(n / 10));
        assert forall|i: int| 0 <= i < s.len() implies is_digit(#[trigger] s[i]) by {}
    }
}

/// Reading what was written gives the number back, where it is within the
/// bound.
pub proof fn lemma_parse_decimal(n: nat, max: nat)
    requires
        n <= max,
    ensures
        parse_number(decimal(n), max) == Ok::<nat, NumberError>(n),
{
    let s = decimal(n);
    lemma_decimal(n);
    lemma_digit_run(s, s.len() as int);
    assert(s.take(s.len() as int) =~= s);
}

/// The character that writes the digit `d`.
fn digit_to_char(d: u64) -> (c: char)
    requires
        d < 10,
    ensures
        c == digit_char(d as nat),
{
    if d == 0 {
        '0'
    } else if d == 1 {
        '1'
    } else if d == 2 {
        '2'
    } else if d == 3 {
        '3'
    } else if d == 4 {
        '4'
    } else if d == 5 {
        '5'
    } else if d == 6 {
        '6'
    } else if d == 7 {
        '7'
    } else if d == 8 {
        '8'
    } else {
        '9'
    }
}

/// The digit that `c` writes, if it writes one.
fn char_to_digit(c: char) -> (d: Option<u64>)
    ensures
        match d {
            Some(v) => digit_value(c) == Some(v as nat),
            None => digit_value(c) is None,
        },
{
    if c == '0' {
        Some(0)
    } else if c == '1' {
        Some(1)
    } else if c == '2' {
        Some(2)
    } else if c == '3' {
        Some(3)
    } else if c == '4' {
        Some(4)
    } else if c == '5' {
        Some(5)
    } else if c == '6' {
        Some(6)
    } else if c == '7' {
        Some(7)
    } else if c == '8' {
        Some(8)
    } else if c == '9' {
        Some(9)
    } else {
        None
    }
}

/// Appends the decimal notation of `n` to `s`.
pub fn push_decimal(s: &mut String, n: u64)
    ensures
        final(s)@ == old(s)@ + decimal(n as nat),
    decreases n,
{
    if n >= 10 {
        push_decimal(s, n / 10);
    }
    s.push(digit_to_char(n % 10));
}

/// The decimal notation of `n`.
pub fn decimal_string(n: u64) -> (s: String)
    ensures
        s@ == decimal(n as nat),
{
    let mut s = String::new();
    push_decimal(&mut s, n);
    s
}

/// Reads `s` as an unsigned integer no larger than `max`.
pub fn parse_bounded(s: &str, max: u64) -> (r: Result<u64, NumberError>)
    ensures
        match r {
            Ok(v) => parse_number(s@, max as nat) == Ok::<nat, NumberError>(v as nat),
            Err(e) => parse_number(s@, max as nat) == Err::<nat, NumberError>(e),
        },
{
    let chars = chars_of(s);
    if chars.len() == 0 {
        return Err(NumberError::Empty);
    }
    let start: usize = if chars[0] == '+' {
        1
    } else {
        0
    };
    let ghost body = unsigned_part(s@);
    if start == chars.len() {
        return Err(NumberError::InvalidDigit);
    }
    let mut acc: u64 = 0;
    let mut i: usize = start;
    while i < chars.len()
        invariant
            chars@ == s@,
            start < chars.len(),
            start <= i <= chars.len(),
            body == unsigned_part(s@),
            body == chars@.skip(start as int),
            forall|j: int| 0 <= j < i - start ==> is_digit(#[trigger] body[j]),
            acc == digits_value(body.take(i - start)),
            acc <= max,
        decreases chars.len() - i,
    {
        let ghost k = i - start;
        assert(body.take(k + 1).drop_last() =~= body.take(k));
        match char_to_digit(chars[i]) {
            None => {
                proof {
                    lemma_digit_run(body, k);
                }
                return Err(NumberError::InvalidDigit);
            },
            Some(d) => {
                let next: u128 = acc as u128 * 10 + d as u128;
                if next > max as u128 {
                    proof {
                        lemma_digit_run(body, k + 1);
                        lemma_digit_run_bound(body);
                        lemma_value_grows(body, k + 1, digit_run(body) as int);
                    }
                    return Err(NumberError::TooLarge);
                }
                acc = next as u64;
            },
        }
        i = i + 1;
    }
    proof {
        lemma_digit_run(body, body.len() as int);
    }
    Ok(acc)
}

/// Reads `s` as a `u16`.
pub fn parse_u16(s: &str) -> (r: Result<u16, NumberError>)
    ensures
        match r {
            Ok(v) => parse_number(s@, u16::MAX as nat) == Ok::<nat, NumberError>(v as nat),
            Err(e) => parse_number(s@, u16::MAX as nat) == Err::<nat, NumberError>(e),
        },
{
    match parse_bounded(s, 65535) {
        Ok(v) => Ok(v as u16),
        Err(e) => Err(e),
    }
}

/// Reads `s` as a `u64`.
pub fn parse_u64(s: &str) -> (r: Result<u64, NumberError>)
    ensures
        match r {
            Ok(v) => parse_number(s@, u64::MAX as nat) == Ok::<nat, NumberError>(v as nat),
            Err(e) => parse_number(s@, u64::MAX as nat) == Err::<nat, NumberError>(e),
        },
{
    parse_bounded(s, u64::MAX)
}

impl NumberError {
    /// The fault in words, as Rust's standard library words it.
    pub fn message(&self) -> (m: String)
        ensures
            m@ == error_text(*self),
    {
        match self {
            NumberError::Empty => "cannot parse integer from empty string".to_owned(),
            NumberError::InvalidDigit => "invalid digit found in string".to_owned(),
            NumberError::TooLarge => "number too large to fit in target type".to_owned(),
        }
    }
}

} // verus!
