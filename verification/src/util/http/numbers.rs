//! Numbers as they are written in HTTP messages.

use crate::util::text::{trim, trim_bounds};
use vstd::prelude::*;

verus! {

/// The upper-case hexadecimal digit for a value below 16.
pub open spec fn hex_digit(value: nat) -> u8 {
    if value < 10 {
        (0x30 + value) as u8
    } else {
        (0x41 + value - 10) as u8
    }
}

/// A number in upper-case hexadecimal digits, without leading zeros.
pub open spec fn hex_digits(n: nat) -> Seq<u8>
    decreases n,
{
    if n < 16 {
        seq![hex_digit(n)]
    } else {
        hex_digits(n / 16).push(hex_digit(n % 16))
    }
}

/// The decimal digit for a value below 10.
pub open spec fn decimal_digit(value: nat) -> u8 {
    (0x30 + value) as u8
}

/// A number in decimal digits, without leading zeros.
pub open spec fn decimal_digits(n: nat) -> Seq<u8>
    decreases n,
{
    if n < 10 {
        seq![decimal_digit(n)]
    } else {
        decimal_digits(n / 10).push(decimal_digit(n % 10))
    }
}

/// Writes a number in upper-case hexadecimal digits.
pub fn hex_of(n: usize) -> (digits: Vec<u8>)
    ensures
        digits@ == hex_digits(n as nat),
    decreases n,
{
    let low: u8 = (n % 16) as u8;
    let digit: u8 = if low < 10 {
        0x30 + low
    } else {
        0x41 + low - 10
    };
    if n < 16 {
        let mut digits: Vec<u8> = Vec::new();
        digits.push(digit);
        assert(digits@ =~= seq![hex_digit(n as nat)]);
        digits
    } else {
        let mut digits = hex_of(n / 16);
        digits.push(digit);
        digits
    }
}

/// Writes a number in decimal digits.
pub fn decimal_of(n: usize) -> (digits: Vec<u8>)
    ensures
        digits@ == decimal_digits(n as nat),
    decreases n,
{
    let digit: u8 = 0x30 + (n % 10) as u8;
    if n < 10 {
        let mut digits: Vec<u8> = Vec::new();
        digits.push(digit);
        assert(digits@ =~= seq![decimal_digit(n as nat)]);
        digits
    } else {
        let mut digits = decimal_of(n / 10);
        digits.push(digit);
        digits
    }
}

/// The value of a hexadecimal digit of either case; `None` for any other
/// character.
pub open spec fn hex_value_of(c: char) -> Option<nat> {
    let n = c as u32;
    if 0x30 <= n <= 0x39 {
        Some((n - 0x30) as nat)
    } else if 0x41 <= n <= 0x46 {
        Some((n - 0x41 + 10) as nat)
    } else if 0x61 <= n <= 0x66 {
        Some((n - 0x61 + 10) as nat)
    } else {
        None
    }
}

/// The value of a decimal digit; `None` for any other character.
pub open spec fn decimal_value_of(c: char) -> Option<nat> {
    let n = c as u32;
    if 0x30 <= n <= 0x39 {
        Some((n - 0x30) as nat)
    } else {
        None
    }
}

/// The value of a digit in the given base, which is 10 or 16.
pub open spec fn digit_in(base: nat, c: char) -> Option<nat> {
    if base == 16 {
        hex_value_of(c)
    } else {
        decimal_value_of(c)
    }
}

/// The number that a run of digits in the given base denotes; `None` if a
/// character is no digit.
pub open spec fn digits_number(base: nat, s: Seq<char>) -> Option<nat>
    decreases s.len(),
{
    if s.len() == 0 {
        Some(0)
    } else {
        match (digits_number(base, s.drop_last()), digit_in(base, s.last())) {
            (Some(head), Some(digit)) => Some(head * base + digit),
            _ => None,
        }
    }
}

/// The number that a text denotes in the given base: an optional `+` and
/// then at least one digit. `None` if the text is no such number or the
/// number does not fit in a `usize`.
pub open spec fn number_in(base: nat, text: Seq<char>) -> Option<usize> {
    let digits = if text.len() > 0 && text[0] == '+' {
        text.drop_first()
    } else {
        text
    };
    if digits.len() == 0 {
        None
    } else {
        match digits_number(base, digits) {
            Some(n) => if n <= usize::MAX {
                Some(n as usize)
            } else {
                None
            },
            None => None,
        }
    }
}

/// The value of the digit `c` in the given base.
fn digit_of(base: usize, c: char) -> (r: Option<usize>)
    requires
        base == 10 || base == 16,
    ensures
        match digit_in(base as nat, c) {
            Some(value) => r == Some(value as usize) && value < base,
            None => r is None,
        },
{
    let n: u32 = c as u32;
    if 0x30 <= n && n <= 0x39 {
        Some((n - 0x30) as usize)
    } else if base == 16 && 0x41 <= n && n <= 0x46 {
        Some((n - 0x41 + 10) as usize)
    } else if base == 16 && 0x61 <= n && n <= 0x66 {
        Some((n - 0x61 + 10) as usize)
    } else {
        None
    }
}

/// A run of digits denotes at least what each of its prefixes denotes.
proof fn lemma_digits_number_grows(base: nat, s: Seq<char>, n: int)
    requires
        base == 10 || base == 16,
        0 <= n <= s.len(),
        digits_number(base, s) is Some,
    ensures
        digits_number(base, s.take(n)) is Some,
        digits_number(base, s.take(n))->Some_0 <= digits_number(base, s)->Some_0,
    decreases s.len(),
{
    if n == s.len() {
        assert(s.take(n) =~= s);
    } else {
        assert(s.drop_last().take(n) =~= s.take(n));
        lemma_digits_number_grows(base, s.drop_last(), n);
        let head = digits_number(base, s.drop_last())->Some_0;
        assert(head <= head * base) by (nonlinear_arith)
            requires
                base >= 1,
        ;
    }
}

/// Where a prefix of a run of characters is no number, the run is none.
proof fn lemma_digits_number_fails(base: nat, s: Seq<char>, n: int)
    requires
        0 <= n <= s.len(),
        digits_number(base, s.take(n)) is None,
    ensures
        digits_number(base, s) is None,
    decreases s.len(),
{
    if n == s.len() {
        assert(s.take(n) =~= s);
    } else {
        assert(s.drop_last().take(n) =~= s.take(n));
        lemma_digits_number_fails(base, s.drop_last(), n);
    }
}

/// Reads `text[start..end]` as a number in the given base, which is 10 or
/// 16.
pub fn parse_number(base: usize, text: &Vec<char>, start: usize, end: usize) -> (r: Option<usize>)
    requires
        base == 10 || base == 16,
        start <= end <= text.len(),
    ensures
        r == number_in(base as nat, text@.subrange(start as int, end as int)),
{
    let ghost whole = text@.subrange(start as int, end as int);
    let from: usize = if start < end && text[start] == '+' {
        start + 1
    } else {
        start
    };
    let ghost digits = text@.subrange(from as int, end as int);
    proof {
        if from > start {
            assert(whole[0] == '+');
            assert(whole.drop_first() =~= digits);
        } else {
            assert(whole =~= digits);
            if whole.len() > 0 {
                assert(whole[0] == text[start as int]);
            }
        }
    }
    if from == end {
        return None;
    }
    let mut value: usize = 0;
    let mut i: usize = from;
    assert(digits.take(0) =~= Seq::<char>::empty());
    let ghost goal = number_in(base as nat, whole);
    while i < end
        invariant
            from <= i <= end <= text.len(),
            from < end,
            base == 10 || base == 16,
            digits == text@.subrange(from as int, end as int),
            goal == number_in(base as nat, text@.subrange(start as int, end as int)),
            goal == (match digits_number(base as nat, digits) {
                Some(n) => if n <= usize::MAX {
                    Some(n as usize)
                } else {
                    None
                },
                None => None,
            }),
            digits_number(base as nat, digits.take(i - from)) == Some(value as nat),
        decreases end - i,
    {
        let ghost prefix = digits.take(i - from + 1);
        proof {
            assert(prefix.drop_last() =~= digits.take(i - from));
            assert(prefix.last() == text[i as int]);
        }
        let digit = match digit_of(base, text[i]) {
            Some(digit) => digit,
            None => {
                proof {
                    lemma_digits_number_fails(base as nat, digits, i - from + 1);
                }
                return None;
            },
        };
        let next = match value.checked_mul(base) {
            Some(scaled) => scaled.checked_add(digit),
            None => None,
        };
        match next {
            Some(next) => {
                value = next;
            },
            None => {
                proof {
                    if digits_number(base as nat, digits) is Some {
                        lemma_digits_number_grows(base as nat, digits, i - from + 1);
                    }
                }
                return None;
            },
        }
        i += 1;
    }
    assert(digits.take(end - from) =~= digits);
    Some(value)
}

/// The number that a text denotes in the given base once the whitespace at
/// its start and end is taken away.
pub open spec fn trimmed_number(base: nat, text: Seq<char>) -> Option<usize> {
    number_in(base, trim(text))
}

/// Reads a text as a number in the given base, which is 10 or 16, without
/// regard to whitespace at its start and end.
pub fn parse_trimmed_number(base: usize, text: &Vec<char>) -> (r: Option<usize>)
    requires
        base == 10 || base == 16,
    ensures
        r == trimmed_number(base as nat, text@),
{
    let (from, to) = trim_bounds(text);
    parse_number(base, text, from, to)
}

} // verus!
