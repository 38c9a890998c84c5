//! Parsing of unsigned decimal numbers.

use vstd::prelude::*;

verus! {

/// Why a text is not an unsigned decimal number in range.
#[derive(Clone, Copy, Debug, PartialEq, Eq, Structural)]
pub enum ParseNumError {
    /// The text is empty.
    Empty,
    /// After an optional `+`, the text is not one or more ASCII digits.
    InvalidDigit,
    /// The number is larger than the largest value allowed.
    Overflow,
}

/// Whether `c` is an ASCII decimal digit.
pub open spec fn is_digit(c: char) -> bool {
    '0' <= c <= '9'
}

/// The value of an ASCII decimal digit.
pub open spec fn digit_value(c: char) -> nat {
    (c as u32 - 48) as nat
}

/// The value of a sequence of decimal digits, most significant first.
pub open spec fn digits_value(s: Seq<char>) -> nat
    decreases s.len(),
{
    if s.len() == 0 {
        0
    } else {
        digits_value(s.drop_last()) * 10 + digit_value(s.last())
    }
}

/// The text without its leading `+`, if it has one.
pub open spec fn unsigned_body(s: Seq<char>) -> Seq<char> {
    if s.len() > 0 && s[0] == '+' {
        s.drop_first()
    } else {
        s
    }
}

/// Whether the text is an optional `+` followed by one or more decimal digits.
pub open spec fn is_decimal_text(s: Seq<char>) -> bool {
    unsigned_body(s).len() > 0 && forall|i: int| 0 <= i < unsigned_body(s).len() ==> is_digit(#[trigger] unsigned_body(s)[i])
}

/// What parsing `s` as an unsigned number no larger than `max` gives.
pub open spec fn parse_outcome(s: Seq<char>, max: nat) -> Result<nat, ParseNumError> {
    if s.len() == 0 {
        Err(ParseNumError::Empty)
    } else if !is_decimal_text(s) {
        Err(ParseNumError::InvalidDigit)
    } else if digits_value(unsigned_body(s)) > max {
        Err(ParseNumError::Overflow)
    } else {
        Ok(digits_value(unsigned_body(s)))
    }
}

proof fn lemma_digits_value_grows(s: Seq<char>, i: int, j: int)
    requires
        0 <= i <= j <= s.len(),
    ensures
        digits_value(s.take(i)) <= digits_value(s.take(j)),
    decreases j - i,
{
    if i < j {
        lemma_digits_value_grows(s, i, j - 1);
        assert(s.take(j).drop_last() =~= s.take(j - 1));
    }
}

/// Parses an unsigned decimal number (an optional `+`, then ASCII digits) no larger than `max`.
pub fn parse_bounded(s: &str, max: u64) -> (r: Result<u64, ParseNumError>)
    ensures
        match parse_outcome(s@, max as nat) {
            Ok(v) => r == Ok::<u64, ParseNumError>(v as u64),
            Err(e) => r == Err::<u64, ParseNumError>(e),
        },
{
    let n = s.unicode_len();
    if n == 0 {
        return Err(ParseNumError::Empty);
    }
    let start: usize = if s.get_char(0) == '+' { 1 } else { 0 };
    let ghost body = unsigned_body(s@);
    assert(body =~= s@.subrange(start as int, n as int));
    if start == n {
        assert(body.len() == 0);
        assert(!is_decimal_text(s@));
        return Err(ParseNumError::InvalidDigit);
    }
    let mut k: usize = start;
    while k < n
        invariant
            start <= k <= n,
            n == s@.len(),
            body == s@.subrange(start as int, n as int),
            body == unsigned_body(s@),
            forall|i: int| 0 <= i < k - start ==> is_digit(#[trigger] body[i]),
        decreases n - k,
    {
        let c = s.get_char(k);
        if !('0' <= c && c <= '9') {
            assert(body[k - start] == c);
            return Err(ParseNumError::InvalidDigit);
        }
        k += 1;
    }
    assert(is_decimal_text(s@));
    let mut acc: u64 = 0;
    let mut k: usize = start;
    while k < n
        invariant
            start <= k <= n,
            n == s@.len(),
            body == s@.subrange(start as int, n as int),
            body == unsigned_body(s@),
            is_decimal_text(s@),
            acc == digits_value(body.take(k - start)),
            acc <= max,
        decreases n - k,
    {
        let c = s.get_char(k);
        assert(body[k - start] == c);
        assert(is_digit(c));
        let d = (c as u32 - 48) as u64;
        let next: u128 = acc as u128 * 10 + d as u128;
        assert(body.take(k - start + 1).drop_last() =~= body.take(k - start));
        if next > max as u128 {
            proof {
                lemma_digits_value_grows(body, k - start + 1, body.len() as int);
                assert(body.take(body.len() as int) =~= body);
            }
            assert(digits_value(body) > max);
            return Err(ParseNumError::Overflow);
        }
        acc = next as u64;
        k += 1;
    }
    assert(body.take(body.len() as int) =~= body);
    Ok(acc)
}

/// Parses a `usize`: an optional `+`, then ASCII decimal digits, no larger than `usize::MAX`.
pub fn parse_usize(s: &str) -> (r: Result<usize, ParseNumError>)
    ensures
        match parse_outcome(s@, usize::MAX as nat) {
            Ok(v) => r == Ok::<usize, ParseNumError>(v as usize),
            Err(e) => r == Err::<usize, ParseNumError>(e),
        },
{
    match parse_bounded(s, usize::MAX as u64) {
        Ok(v) => Ok(v as usize),
        Err(e) => Err(e),
    }
}

} // verus!
