//! Parsing of human-readable byte sizes such as `1GiB` or `1Gi 200Mi`.
//!
//! A size is a list of components separated by optional ASCII whitespace.
//! Each component is a run of decimal digits followed, after optional
//! whitespace, by an optional unit prefix. The components are summed.

use crate::util::text::{
    char_is_ascii_alphabetic, char_is_ascii_digit, char_is_ascii_whitespace, is_ascii_alphabetic,
    is_ascii_digit, is_ascii_whitespace, str_chars, substring, trim, trim_bounds,
};
use vstd::prelude::*;

verus! {

/// Why a run of digits is not a `u64`.
#[derive(Debug, Clone, Copy, PartialEq, Eq, Structural)]
pub enum IntErrorKind {
    /// There is no digit where a number must start.
    Empty,
    /// The number, or the size it contributes to, does not fit in 64 bits.
    PosOverflow,
}

/// An error that can occur while parsing a human-readable byte size.
#[derive(Debug, Clone)]
pub enum ParserError {
    /// A number could not be read.
    ParseIntError(IntErrorKind),
    /// The unit prefix is none of the known ones.
    InvalidUnitPrefix(String),
    /// The input consists only of whitespace.
    OnlyWhitespace,
}

/// The outcome of parsing, over mathematical values.
pub enum ParsedSize {
    Value(nat),
    IntError(IntErrorKind),
    InvalidUnitPrefix(Seq<char>),
    OnlyWhitespace,
}

/// The classes of characters that make up the tokens of a size.
#[derive(Debug, Clone, Copy, PartialEq, Eq, Structural)]
pub enum CharClass {
    Whitespace,
    Digit,
    Alphabetic,
}

impl CharClass {
    /// Whether `c` belongs to the class.
    pub open spec fn holds(self, c: char) -> bool {
        match self {
            CharClass::Whitespace => is_ascii_whitespace(c),
            CharClass::Digit => is_ascii_digit(c),
            CharClass::Alphabetic => is_ascii_alphabetic(c),
        }
    }

    pub fn test(self, c: char) -> (b: bool)
        ensures
            b == self.holds(c),
    {
        match self {
            CharClass::Whitespace => char_is_ascii_whitespace(c),
            CharClass::Digit => char_is_ascii_digit(c),
            CharClass::Alphabetic => char_is_ascii_alphabetic(c),
        }
    }
}

/// The length of the longest prefix of `s` whose characters are all of `class`.
pub open spec fn token_len(s: Seq<char>, class: CharClass) -> nat
    decreases s.len(),
{
    if s.len() > 0 && class.holds(s[0]) {
        1 + token_len(s.drop_first(), class)
    } else {
        0
    }
}

/// The number that a run of decimal digits denotes.
pub open spec fn digits_value(s: Seq<char>) -> nat
    decreases s.len(),
{
    if s.len() == 0 {
        0
    } else {
        digits_value(s.drop_last()) * 10 + (s.last() as u32 - 0x30) as nat
    }
}

/// A unit prefix without its optional trailing `B`.
pub open spec fn strip_byte_suffix(prefix: Seq<char>) -> Seq<char> {
    if prefix.len() > 0 && prefix.last() == 'B' {
        prefix.drop_last()
    } else {
        prefix
    }
}

/// The factor that a unit prefix stands for, if it is a known one.
pub open spec fn unit_factor(prefix: Seq<char>) -> Option<nat> {
    let p = strip_byte_suffix(prefix);
    if p =~= seq![] {
        Some(1)
    } else if p =~= seq!['k'] || p =~= seq!['K'] {
        Some(1_000)
    } else if p =~= seq!['M'] {
        Some(1_000_000)
    } else if p =~= seq!['G'] {
        Some(1_000_000_000)
    } else if p =~= seq!['T'] {
        Some(1_000_000_000_000)
    } else if p =~= seq!['P'] {
        Some(1_000_000_000_000_000)
    } else if p =~= seq!['E'] {
        Some(1_000_000_000_000_000_000)
    } else if p =~= seq!['K', 'i'] {
        Some(0x400)
    } else if p =~= seq!['M', 'i'] {
        Some(0x10_0000)
    } else if p =~= seq!['G', 'i'] {
        Some(0x4000_0000)
    } else if p =~= seq!['T', 'i'] {
        Some(0x100_0000_0000)
    } else if p =~= seq!['P', 'i'] {
        Some(0x4_0000_0000_0000)
    } else if p =~= seq!['E', 'i'] {
        Some(0x1000_0000_0000_0000)
    } else {
        None
    }
}

/// The sum of `acc` and of the components of `s`, read from left to right.
/// The first component that cannot be read, or that takes the sum over
/// `u64::MAX`, decides the error.
pub open spec fn parse_components(s: Seq<char>, acc: nat) -> ParsedSize
    decreases s.len(),
{
    let s1 = s.skip(token_len(s, CharClass::Whitespace) as int);
    if s1.len() == 0 {
        ParsedSize::Value(acc)
    } else {
        let d = token_len(s1, CharClass::Digit);
        let s2 = s1.skip(d as int);
        let s3 = s2.skip(token_len(s2, CharClass::Whitespace) as int);
        let a = token_len(s3, CharClass::Alphabetic);
        if d == 0 {
            ParsedSize::IntError(IntErrorKind::Empty)
        } else if digits_value(s1.take(d as int)) > u64::MAX {
            ParsedSize::IntError(IntErrorKind::PosOverflow)
        } else {
            match unit_factor(s3.take(a as int)) {
                None => ParsedSize::InvalidUnitPrefix(s3.take(a as int)),
                Some(factor) => {
                    let total = acc + digits_value(s1.take(d as int)) * factor;
                    if total > u64::MAX {
                        ParsedSize::IntError(IntErrorKind::PosOverflow)
                    } else {
                        proof {
                            lemma_token_chars(s, CharClass::Whitespace);
                            lemma_token_chars(s1, CharClass::Digit);
                            lemma_token_chars(s2, CharClass::Whitespace);
                            lemma_token_chars(s3, CharClass::Alphabetic);
                        }
                        parse_components(s3.skip(a as int), total)
                    }
                },
            }
        }
    }
}

/// What a human-readable size denotes.
pub open spec fn parse_size(input: Seq<char>) -> ParsedSize {
    let t = trim(input);
    if t.len() == 0 {
        ParsedSize::OnlyWhitespace
    } else {
        parse_components(t, 0)
    }
}

/// Whether the executable result `r` reports the outcome `p`.
pub open spec fn reports(r: Result<u64, ParserError>, p: ParsedSize) -> bool {
    match p {
        ParsedSize::Value(v) => r == Ok::<u64, ParserError>(v as u64) && v <= u64::MAX,
        ParsedSize::IntError(kind) => r matches Err(ParserError::ParseIntError(k)) && k == kind,
        ParsedSize::InvalidUnitPrefix(prefix) => r matches Err(ParserError::InvalidUnitPrefix(s))
            && s@ == prefix,
        ParsedSize::OnlyWhitespace => r is Err && r->Err_0 is OnlyWhitespace,
    }
}

/// Returns the end of the token of `class` that starts at `start`.
pub fn next_token(input: &Vec<char>, start: usize, class: CharClass) -> (end: usize)
    requires
        start <= input.len(),
    ensures
        start <= end <= input.len(),
        end - start == token_len(input@.skip(start as int), class),
{
    let mut end: usize = start;
    while end < input.len() && class.test(input[end])
        invariant
            start <= end <= input.len(),
            token_len(input@.skip(start as int), class) == (end - start) + token_len(
                input@.skip(end as int),
                class,
            ),
        decreases input.len() - end,
    {
        assert(input@.skip(end as int).drop_first() =~= input@.skip(end as int + 1));
        end += 1;
    }
    end
}

/// Reads the run of digits `input[start..end]` as a number.
pub fn parse_digits(input: &Vec<char>, start: usize, end: usize) -> (r: Result<u64, IntErrorKind>)
    requires
        start <= end <= input.len(),
        forall|i: int| start <= i < end ==> is_ascii_digit(#[trigger] input[i]),
    ensures
        start == end ==> r == Err::<u64, IntErrorKind>(IntErrorKind::Empty),
        start < end && digits_value(input@.subrange(start as int, end as int)) > u64::MAX ==> r
            == Err::<u64, IntErrorKind>(IntErrorKind::PosOverflow),
        start < end && digits_value(input@.subrange(start as int, end as int)) <= u64::MAX ==> r
            == Ok::<u64, IntErrorKind>(
            digits_value(input@.subrange(start as int, end as int)) as u64,
        ),
{
    if start == end {
        return Err(IntErrorKind::Empty);
    }
    let mut value: u64 = 0;
    let mut i: usize = start;
    while i < end
        invariant
            start <= i <= end <= input.len(),
            forall|j: int| start <= j < end ==> is_ascii_digit(#[trigger] input[j]),
            value == digits_value(input@.subrange(start as int, i as int)),
        decreases end - i,
    {
        let digit: u64 = (input[i] as u32 - 0x30) as u64;
        let ghost prefix = input@.subrange(start as int, i as int + 1);
        assert(prefix.drop_last() =~= input@.subrange(start as int, i as int));
        assert(prefix.last() == input[i as int]);
        let next = match value.checked_mul(10) {
            Some(v) => v.checked_add(digit),
            None => None,
        };
        match next {
            Some(v) => {
                value = v;
            },
            None => {
                proof {
                    lemma_digits_value_monotonic(input@.subrange(start as int, end as int), i - start + 1);
                    assert(input@.subrange(start as int, end as int).take(i - start + 1) =~= prefix);
                }
                return Err(IntErrorKind::PosOverflow);
            },
        }
        i += 1;
    }
    Ok(value)
}

/// A run of digits denotes at least what each of its prefixes denotes.
pub proof fn lemma_digits_value_monotonic(s: Seq<char>, n: int)
    requires
        0 <= n <= s.len(),
    ensures
        digits_value(s.take(n)) <= digits_value(s),
    decreases s.len(),
{
    if n == s.len() {
        assert(s.take(n) =~= s);
    } else {
        assert(s.drop_last().take(n) =~= s.take(n));
        lemma_digits_value_monotonic(s.drop_last(), n);
    }
}

/// Reads a unit prefix, with or without its trailing `B`.
pub fn parse_unit_prefix_from_str(prefix: &Vec<char>, start: usize, end: usize) -> (r: Option<u64>)
    requires
        start <= end <= prefix.len(),
    ensures
        match unit_factor(prefix@.subrange(start as int, end as int)) {
            Some(f) => r == Some(f as u64) && f <= u64::MAX,
            None => r is None,
        },
{
    let ghost whole = prefix@.subrange(start as int, end as int);
    let stripped_end: usize = if end > start && prefix[end - 1] == 'B' {
        end - 1
    } else {
        end
    };
    let ghost p = strip_byte_suffix(whole);
    assert(p =~= prefix@.subrange(start as int, stripped_end as int));
    let n: usize = stripped_end - start;
    if n == 0 {
        Some(1)
    } else if n == 1 {
        let c = prefix[start];
        assert(p[0] == c);
        if c == 'k' || c == 'K' {
            Some(1_000)
        } else if c == 'M' {
            Some(1_000_000)
        } else if c == 'G' {
            Some(1_000_000_000)
        } else if c == 'T' {
            Some(1_000_000_000_000)
        } else if c == 'P' {
            Some(1_000_000_000_000_000)
        } else if c == 'E' {
            Some(1_000_000_000_000_000_000)
        } else {
            None
        }
    } else if n == 2 {
        let c = prefix[start];
        let i = prefix[start + 1];
        assert(p[0] == c && p[1] == i);
        if i != 'i' {
            None
        } else if c == 'K' {
            Some(0x400)
        } else if c == 'M' {
            Some(0x10_0000)
        } else if c == 'G' {
            Some(0x4000_0000)
        } else if c == 'T' {
            Some(0x100_0000_0000)
        } else if c == 'P' {
            Some(0x4_0000_0000_0000)
        } else if c == 'E' {
            Some(0x1000_0000_0000_0000)
        } else {
            None
        }
    } else {
        None
    }
}

/// Parses a human-readable byte size into the number of bytes.
///
/// Decimal prefixes (`k`, `K`, `M`, `G`, `T`, `P`, `E`) count in powers of
/// 1000 and binary prefixes (`Ki` to `Ei`) in powers of 1024; a `B` may follow
/// either. Several components are summed. A sum over `u64::MAX` is reported
/// as a number that does not fit.
pub fn parse_bytes_from_str(input: &str) -> (r: Result<u64, ParserError>)
    ensures
        reports(r, parse_size(input@)),
{
    let all = str_chars(input);
    let (from, to) = trim_bounds(&all);
    if from == to {
        return Err(ParserError::OnlyWhitespace);
    }
    let chars: Vec<char> = vstd::slice::slice_to_vec(
        vstd::slice::slice_subrange(all.as_slice(), from, to),
    );
    assert(chars@ == trim(input@));
    let mut pos: usize = 0;
    let mut accumulator: u64 = 0;
    assert(chars@.skip(0) =~= chars@);
    loop
        invariant
            pos <= chars.len(),
            chars@.len() > 0,
            parse_size(input@) == parse_components(chars@.skip(pos as int), accumulator as nat),
        decreases chars.len() - pos,
    {
        let ghost s = chars@.skip(pos as int);
        let p1 = next_token(&chars, pos, CharClass::Whitespace);
        assert(chars@.skip(p1 as int) =~= s.skip(p1 - pos));
        if p1 >= chars.len() {
            return Ok(accumulator);
        }
        let p2 = next_token(&chars, p1, CharClass::Digit);
        let p3 = next_token(&chars, p2, CharClass::Whitespace);
        let p4 = next_token(&chars, p3, CharClass::Alphabetic);
        let ghost s1 = chars@.skip(p1 as int);
        let ghost s2 = s1.skip(p2 - p1);
        let ghost s3 = s2.skip(p3 - p2);
        assert(s2 =~= chars@.skip(p2 as int));
        assert(s3 =~= chars@.skip(p3 as int));
        assert(s1.take(p2 - p1) =~= chars@.subrange(p1 as int, p2 as int));
        assert(s3.take(p4 - p3) =~= chars@.subrange(p3 as int, p4 as int));
        assert(s3.skip(p4 - p3) =~= chars@.skip(p4 as int));
        proof {
            lemma_token_chars(s1, CharClass::Digit);
            assert forall|i: int| p1 <= i < p2 implies is_ascii_digit(#[trigger] chars[i]) by {
                assert(chars[i] == s1[i - p1]);
                assert(CharClass::Digit.holds(s1[i - p1]));
            }
        }
        let value_factor = match parse_digits(&chars, p1, p2) {
            Ok(v) => v,
            Err(kind) => {
                return Err(ParserError::ParseIntError(kind));
            },
        };
        let unit_prefix_factor = match parse_unit_prefix_from_str(&chars, p3, p4) {
            Some(f) => f,
            None => {
                return Err(ParserError::InvalidUnitPrefix(substring(&chars, p3, p4)));
            },
        };
        let total = match value_factor.checked_mul(unit_prefix_factor) {
            Some(product) => accumulator.checked_add(product),
            None => None,
        };
        match total {
            Some(t) => {
                accumulator = t;
            },
            None => {
                return Err(ParserError::ParseIntError(IntErrorKind::PosOverflow));
            },
        }
        pos = p4;
    }
}

/// Every character of a token is of the token's class.
pub proof fn lemma_token_chars(s: Seq<char>, class: CharClass)
    ensures
        token_len(s, class) <= s.len(),
        forall|i: int| 0 <= i < token_len(s, class) ==> class.holds(#[trigger] s[i]),
    decreases s.len(),
{
    if s.len() > 0 && class.holds(s[0]) {
        lemma_token_chars(s.drop_first(), class);
        assert forall|i: int| 0 <= i < token_len(s, class) implies class.holds(#[trigger] s[i]) by {
            if i > 0 {
                assert(s[i] == s.drop_first()[i - 1]);
            }
        }
    }
}

} // verus!
