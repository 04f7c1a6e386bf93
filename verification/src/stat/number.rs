//! Decimal numbers in text.

use vstd::prelude::*;

verus! {

/// Why a piece of text is not an unsigned decimal number.
#[derive(Clone, Copy, Debug, PartialEq, Eq, Structural)]
pub enum IntParseError {
    /// The text is empty.
    Empty,
    /// A character is not a decimal digit, or only a sign was given.
    InvalidDigit,
    /// The number is too large for the integer it is read into.
    PosOverflow,
}

impl IntParseError {
    /// What is wrong, in words.
    pub open spec fn message(self) -> Seq<char> {
        match self {
            IntParseError::Empty => "cannot parse integer from empty string"@,
            IntParseError::InvalidDigit => "invalid digit found in string"@,
            IntParseError::PosOverflow => "number too large to fit in target type"@,
        }
    }

    /// What is wrong, in words.
    pub fn description(&self) -> (text: &'static str)
        ensures
            text@ == self.message(),
    {
        match self {
            IntParseError::Empty => "cannot parse integer from empty string",
            IntParseError::InvalidDigit => "invalid digit found in string",
            IntParseError::PosOverflow => "number too large to fit in target type",
        }
    }
}

/// Whether `c` is one of `0` to `9`.
pub open spec fn is_digit(c: char) -> bool {
    '0' <= c <= '9'
}

/// The number that the digit `c` stands for.
pub open spec fn digit_value(c: char) -> nat {
    (c as u32 - '0' as u32) as nat
}

/// Whether every character of `s` is a decimal digit.
pub open spec fn all_digits(s: Seq<char>) -> bool {
    forall|i: int| 0 <= i < s.len() ==> is_digit(#[trigger] s[i])
}

/// The number that the digits `s` write in base ten, most significant first.
pub open spec fn decimal_value(s: Seq<char>) -> nat
    decreases s.len(),
{
    if s.len() == 0 {
        0
    } else {
        10 * decimal_value(s.drop_last()) + digit_value(s.last())
    }
}

/// The digits of `s`: all of it but one leading `+`.
pub open spec fn unsigned_digits(s: Seq<char>) -> Seq<char> {
    if s.len() > 0 && s[0] == '+' {
        s.skip(1)
    } else {
        s
    }
}

/// Whether reading `d` from the left meets a character that is no digit
/// before the number read so far has outgrown `max`.
pub open spec fn stops_at_non_digit(d: Seq<char>, max: nat) -> bool {
    exists|k: int|
        0 <= k < d.len() && !is_digit(d[k]) && all_digits(#[trigger] d.take(k)) && decimal_value(
            d.take(k),
        ) <= max
}

/// What `s` is as an unsigned decimal number no larger than `max`.
///
/// An optional `+` is followed by at least one digit and nothing else.
/// Text is read from the left, and the first thing wrong with it decides
/// the error: a character that is no digit, or a digit that takes the number
/// beyond `max`.
pub open spec fn parse_unsigned(s: Seq<char>, max: nat) -> Result<nat, IntParseError> {
    let d = unsigned_digits(s);
    if s.len() == 0 {
        Err(IntParseError::Empty)
    } else if d.len() == 0 {
        Err(IntParseError::InvalidDigit)
    } else if all_digits(d) && decimal_value(d) <= max {
        Ok(decimal_value(d))
    } else if stops_at_non_digit(d, max) {
        Err(IntParseError::InvalidDigit)
    } else {
        Err(IntParseError::PosOverflow)
    }
}

/// A number does not shrink when a digit is appended to it.
proof fn lemma_decimal_value_grows(s: Seq<char>, k: int)
    requires
        0 <= k <= s.len(),
    ensures
        decimal_value(s.take(k)) <= decimal_value(s),
    decreases s.len() - k,
{
    if k == s.len() {
        assert(s.take(k) =~= s);
    } else {
        lemma_decimal_value_grows(s, k + 1);
        assert(s.take(k + 1).drop_last() =~= s.take(k));
    }
}

/// Reads the unsigned decimal number that `text` writes.
pub fn read_unsigned(text: &[char], max: u64) -> (r: Result<u64, IntParseError>)
    ensures
        match r {
            Ok(v) => parse_unsigned(text@, max as nat) == Ok::<nat, IntParseError>(v as nat),
            Err(e) => parse_unsigned(text@, max as nat) == Err::<nat, IntParseError>(e),
        },
{
    let n = text.len();
    if n == 0 {
        return Err(IntParseError::Empty);
    }
    let start: usize = if text[0] == '+' { 1 } else { 0 };
    if start == n {
        return Err(IntParseError::InvalidDigit);
    }
    let ghost d = unsigned_digits(text@);
    assert(d =~= text@.skip(start as int));
    let mut value: u64 = 0;
    let mut i: usize = start;
    while i < n
        invariant
            start <= i <= n,
            n == text@.len(),
            text@.len() > 0,
            d == unsigned_digits(text@),
            d == text@.skip(start as int),
            all_digits(d.take(i - start)),
            value == decimal_value(d.take(i - start)),
            value <= max,
        decreases n - i,
    {
        let c = text[i];
        let ghost k = i - start;
        assert(d[k] == c);
        if c < '0' || c > '9' {
            assert(stops_at_non_digit(d, max as nat));
            assert(!all_digits(d));
            return Err(IntParseError::InvalidDigit);
        }
        let digit: u64 = (c as u32 - '0' as u32) as u64;
        assert(d.take(k + 1).drop_last() =~= d.take(k));
        assert(d.take(k + 1).last() == c);
        if value as u128 * 10 + digit as u128 > max as u128 {
            proof {
                // The number read so far is already beyond `max`, and every
                // longer prefix is at least as large.
                assert(decimal_value(d.take(k + 1)) > max);
                lemma_decimal_value_grows(d, k + 1);
                assert forall|j: int|
                    0 <= j < d.len() && !is_digit(d[j]) && all_digits(#[trigger] d.take(j))
                        && decimal_value(d.take(j)) <= max implies false by {
                    if j <= k {
                        assert(d.take(k + 1)[j] == d[j]);
                    } else {
                        lemma_decimal_value_grows(d.take(j), k + 1);
                        assert(d.take(j).take(k + 1) =~= d.take(k + 1));
                    }
                }
            }
            return Err(IntParseError::PosOverflow);
        }
        value = value * 10 + digit;
        i = i + 1;
        proof {
            assert forall|j: int| 0 <= j < d.take(k + 1).len() implies is_digit(
                #[trigger] d.take(k + 1)[j],
            ) by {
                if j < k {
                    assert(d.take(k)[j] == d[j]);
                }
            }
        }
    }
    assert(d.take(n - start) =~= d);
    Ok(value)
}

} // verus!
