//! Decimal text for unsigned integers: rendering and parsing.

use vstd::prelude::*;

verus! {

/// The character that stands for the decimal digit `d`.
pub open spec fn digit(d: nat) -> char {
    if d == 0 {
        '0'
    } else if d == 1 {
        '1'
    } else if d == 2 {
        '2'
    } else if d == 3 {
        '3'
    } else if d == 4 {
        '4'
    } else if d == 5 {
        '5'
    } else if d == 6 {
        '6'
    } else if d == 7 {
        '7'
    } else if d == 8 {
        '8'
    } else {
        '9'
    }
}

/// Decimal digits of `n`, most significant first, without leading zeros.
pub open spec fn decimal(n: nat) -> Seq<char>
    decreases n,
{
    if n < 10 {
        seq![digit(n)]
    } else {
        decimal(n / 10).push(digit(n % 10))
    }
}

/// Decimal digits of `n`, filled with zeros on the left up to three places.
pub open spec fn decimal3(n: nat) -> Seq<char> {
    if n < 10 {
        seq!['0', '0'] + decimal(n)
    } else if n < 100 {
        seq!['0'] + decimal(n)
    } else {
        decimal(n)
    }
}

fn digit_str(d: u8) -> (text: &'static str)
    requires
        d < 10,
    ensures
        text@ == seq![digit(d as nat)],
{
    proof {
        reveal_strlit("0");
        reveal_strlit("1");
        reveal_strlit("2");
        reveal_strlit("3");
        reveal_strlit("4");
        reveal_strlit("5");
        reveal_strlit("6");
        reveal_strlit("7");
        reveal_strlit("8");
        reveal_strlit("9");
    }
    let text = match d {
        0 => "0",
        1 => "1",
        2 => "2",
        3 => "3",
        4 => "4",
        5 => "5",
        6 => "6",
        7 => "7",
        8 => "8",
        _ => "9",
    };
    text
}

/// Appends the decimal digits of `n` to `out`.
pub fn push_decimal(out: &mut String, n: u64)
    ensures
        final(out)@ == old(out)@ + decimal(n as nat),
    decreases n,
{
    if n >= 10 {
        push_decimal(out, n / 10);
    }
    let last: u8 = (n % 10) as u8;
    out.append(digit_str(last));
}

/// Appends the decimal digits of `n` to `out`, at least three of them.
pub fn push_decimal3(out: &mut String, n: u64)
    ensures
        final(out)@ == old(out)@ + decimal3(n as nat),
{
    if n < 10 {
        out.append(digit_str(0));
        out.append(digit_str(0));
    } else if n < 100 {
        out.append(digit_str(0));
    }
    push_decimal(out, n);
}

/// The decimal digits of `n` as a string.
pub fn to_decimal(n: u64) -> (text: String)
    ensures
        text@ == decimal(n as nat),
{
    let mut text = String::new();
    push_decimal(&mut text, n);
    text
}

/// Why a text is not the decimal form of a `usize`.
#[derive(Debug, Clone, Copy, PartialEq, Eq, Structural)]
pub enum ParseIntError {
    /// The text holds nothing at all.
    Empty,
    /// The text holds something other than digits after an optional `+`,
    /// or nothing after the `+`.
    InvalidDigit,
    /// The digits stand for a number above `usize::MAX`.
    PosOverflow,
}

/// Whether `c` is one of `0` to `9`.
pub open spec fn is_digit(c: char) -> bool {
    '0' <= c <= '9'
}

/// The number that the digit `c` stands for.
pub open spec fn digit_value(c: char) -> nat {
    (c as nat - '0' as nat) as nat
}

/// Whether every character of `s` is a digit.
pub open spec fn all_digits(s: Seq<char>) -> bool {
    forall|i: int| 0 <= i < s.len() ==> is_digit(#[trigger] s[i])
}

/// The number that the digits `s` stand for, most significant first.
pub open spec fn digits_value(s: Seq<char>) -> nat
    decreases s.len(),
{
    if s.len() == 0 {
        0
    } else {
        digits_value(s.drop_last()) * 10 + digit_value(s.last())
    }
}

/// Whether the first `k` characters of `s` are digits that stand for a
/// number above `usize::MAX`.
pub open spec fn prefix_overflows(s: Seq<char>, k: int) -> bool {
    &&& 0 <= k <= s.len()
    &&& all_digits(s.take(k))
    &&& digits_value(s.take(k)) > usize::MAX
}

/// `s` without one leading `+`.
pub open spec fn unsigned_part(s: Seq<char>) -> Seq<char> {
    if s.len() > 0 && s[0] == '+' {
        s.skip(1)
    } else {
        s
    }
}

/// What a text means as a `usize`: an optional `+`, then one or more digits.
/// Reading from the left, a run of digits that already exceeds `usize::MAX`
/// is reported before any character that is no digit.
pub open spec fn parse_usize_spec(s: Seq<char>) -> Result<usize, ParseIntError> {
    let body = unsigned_part(s);
    if s.len() == 0 {
        Err(ParseIntError::Empty)
    } else if body.len() == 0 {
        Err(ParseIntError::InvalidDigit)
    } else if exists|k: int| prefix_overflows(body, k) {
        Err(ParseIntError::PosOverflow)
    } else if !all_digits(body) {
        Err(ParseIntError::InvalidDigit)
    } else {
        Ok(digits_value(body) as usize)
    }
}

/// A longer run of digits never stands for a smaller number than its prefix.
pub proof fn lemma_digits_value_monotonic(s: Seq<char>, j: int, k: int)
    requires
        0 <= j <= k <= s.len(),
    ensures
        digits_value(s.take(j)) <= digits_value(s.take(k)),
    decreases k - j,
{
    if j < k {
        lemma_digits_value_monotonic(s, j, k - 1);
        assert(s.take(k).drop_last() =~= s.take(k - 1));
    }
}

/// Reads `text` as a `usize` in decimal.
pub fn parse_usize(text: &str) -> (parsed: Result<usize, ParseIntError>)
    ensures
        parsed == parse_usize_spec(text@),
{
    let len = text.unicode_len();
    if len == 0 {
        return Err(ParseIntError::Empty);
    }
    let start: usize = if text.get_char(0) == '+' { 1 } else { 0 };
    let ghost body = unsigned_part(text@);
    if start == len {
        return Err(ParseIntError::InvalidDigit);
    }
    let mut value: usize = 0;
    let mut i: usize = start;
    while i < len
        invariant
            start <= i <= len,
            len == text@.len(),
            body == text@.skip(start as int),
            body == unsigned_part(text@),
            start < len,
            all_digits(body.take(i - start)),
            value == digits_value(body.take(i - start)),
        decreases len - i,
    {
        let c = text.get_char(i);
        let ghost k = i - start;
        assert(body.take(k + 1).drop_last() =~= body.take(k));
        if !('0' <= c && c <= '9') {
            proof {
                assert(!is_digit(body[k]));
                assert forall|m: int| !prefix_overflows(body, m) by {
                    if 0 <= m <= body.len() && all_digits(body.take(m)) {
                        if m > k {
                            assert(body.take(m)[k] == body[k]);
                        } else {
                            lemma_digits_value_monotonic(body, m, k);
                        }
                    }
                }
            }
            return Err(ParseIntError::InvalidDigit);
        }
        let d: usize = (c as u32 - '0' as u32) as usize;
        let next = match value.checked_mul(10) {
            Some(tens) => tens.checked_add(d),
            None => None,
        };
        match next {
            Some(n) => {
                value = n;
            },
            None => {
                proof {
                    assert(prefix_overflows(body, k + 1));
                }
                return Err(ParseIntError::PosOverflow);
            },
        }
        i = i + 1;
    }
    proof {
        assert(body.take(len - start) =~= body);
        assert forall|m: int| !prefix_overflows(body, m) by {
            if 0 <= m <= body.len() {
                lemma_digits_value_monotonic(body, m, body.len() as int);
            }
        }
    }
    Ok(value)
}

} // verus!
