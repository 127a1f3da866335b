//! The status line and the header lines of an HTTP response.

use crate::util::http::error::HttpClientError;
use crate::util::text::{
    char_is_ascii_digit, char_is_whitespace, is_ascii_digit, str_chars, trim, trim_bounds,
    trim_end,
};
use vstd::prelude::*;

verus! {

/// The version that every status line has to start with.
pub open spec fn http_version() -> Seq<char> {
    "HTTP/1.1"@
}

/// Whether a line is a status line: the version, a space, a code of three
/// ASCII digits and then either nothing or a space and the reason.
pub open spec fn is_status_line(line: Seq<char>) -> bool {
    &&& line.len() >= 12
    &&& line.take(8) == http_version()
    &&& line[8] == ' '
    &&& is_ascii_digit(line[9])
    &&& is_ascii_digit(line[10])
    &&& is_ascii_digit(line[11])
    &&& (line.len() == 12 || line[12] == ' ')
}

/// The value of an ASCII digit.
pub open spec fn digit_value(c: char) -> int {
    c as u32 - 0x30
}

/// The status line of a response.
#[derive(Debug, PartialEq, Eq)]
pub struct HttpStatus {
    status_line: String,
}

impl HttpStatus {
    /// The status line.
    pub closed spec fn line(&self) -> Seq<char> {
        self.status_line@
    }

    #[verifier::type_invariant]
    spec fn well_formed(&self) -> bool {
        is_status_line(self.status_line@)
    }

    /// Reads a status line. A line that does not start with the version of
    /// the protocol, or whose code is not made of three digits, is refused
    /// as invalid data.
    pub fn new(status_line: String) -> (r: Result<HttpStatus, HttpClientError>)
        ensures
            is_status_line(status_line@) ==> (r matches Ok(status) && status.line()
                == status_line@),
            !is_status_line(status_line@) ==> (r matches Err(e) && e.kind()
                == crate::error::ErrorKind::InvalidData),
    {
        let chars = str_chars(status_line.as_str());
        let version = str_chars("HTTP/1.1");
        proof {
            reveal_strlit("HTTP/1.1");
        }
        if chars.len() < 8 {
            return Err(HttpClientError::invalid_data("unsupported HTTP version"));
        }
        let mut i: usize = 0;
        while i < 8
            invariant
                i <= 8,
                chars.len() >= 8,
                chars@ == status_line@,
                version@ == http_version(),
                version.len() == 8,
                forall|j: int| 0 <= j < i ==> chars@[j] == version@[j],
            decreases 8 - i,
        {
            if chars[i] != version[i] {
                assert(chars@.take(8)[i as int] != http_version()[i as int]);
                return Err(HttpClientError::invalid_data("unsupported HTTP version"));
            }
            i += 1;
        }
        assert(chars@.take(8) =~= http_version());
        if chars.len() < 12 || chars[8] != ' ' || (chars.len() > 12 && chars[12] != ' ') {
            return Err(HttpClientError::invalid_data("malformed status line"));
        }
        if !char_is_ascii_digit(chars[9]) || !char_is_ascii_digit(chars[10])
            || !char_is_ascii_digit(chars[11]) {
            return Err(HttpClientError::invalid_data("invalid HTTP status code"));
        }
        Ok(HttpStatus { status_line })
    }

    /// The status line.
    pub fn as_str(&self) -> (line: &str)
        ensures
            line@ == self.line(),
            is_status_line(line@),
    {
        proof {
            use_type_invariant(self);
        }
        self.status_line.as_str()
    }

    /// The three digits of the status code.
    pub fn code(&self) -> (code: &str)
        ensures
            code@ == self.line().subrange(9, 12),
    {
        proof {
            use_type_invariant(self);
        }
        self.status_line.as_str().substring_char(9, 12)
    }

    /// The status code as a number.
    pub fn code_u16(&self) -> (code: u16)
        ensures
            code == digit_value(self.line()[9]) * 100 + digit_value(self.line()[10]) * 10
                + digit_value(self.line()[11]),
    {
        proof {
            use_type_invariant(self);
        }
        let chars = str_chars(self.status_line.as_str());
        let hundreds: u16 = (chars[9] as u32 - 0x30) as u16;
        let tens: u16 = (chars[10] as u32 - 0x30) as u16;
        let ones: u16 = (chars[11] as u32 - 0x30) as u16;
        hundreds * 100 + tens * 10 + ones
    }

    /// Whether the status code is one of the codes for success, which start
    /// with a `2`.
    pub fn is_success(&self) -> (success: bool)
        ensures
            success == (self.line()[9] == '2'),
    {
        proof {
            use_type_invariant(self);
        }
        let chars = str_chars(self.status_line.as_str());
        chars[9] == '2'
    }

    /// The reason that follows the status code, without whitespace at its
    /// end.
    pub fn reason(&self) -> (reason: &str)
        ensures
            reason@ == status_reason(self.line()),
    {
        proof {
            use_type_invariant(self);
        }
        let chars = str_chars(self.status_line.as_str());
        if chars.len() <= 13 {
            let empty = self.status_line.as_str().substring_char(0, 0);
            assert(empty@ =~= Seq::<char>::empty());
            return empty;
        }
        let mut end: usize = chars.len();
        assert(chars@.skip(13) =~= chars@.subrange(13, end as int));
        while end > 13 && char_is_whitespace(chars[end - 1])
            invariant
                13 <= end <= chars.len(),
                trim_end(chars@.skip(13)) == trim_end(chars@.subrange(13, end as int)),
            decreases end,
        {
            assert(chars@.subrange(13, end as int).drop_last() =~= chars@.subrange(
                13,
                end as int - 1,
            ));
            end -= 1;
        }
        self.status_line.as_str().substring_char(13, end)
    }
}

/// The reason of a status line: what follows the code and a space, without
/// whitespace at its end.
pub open spec fn status_reason(line: Seq<char>) -> Seq<char> {
    if line.len() <= 13 {
        Seq::empty()
    } else {
        trim_end(line.skip(13))
    }
}

/// The position of the first `:` of a line; the length of the line if it
/// has none.
pub open spec fn colon_position(line: Seq<char>) -> nat
    decreases line.len(),
{
    if line.len() > 0 && line[0] != ':' {
        1 + colon_position(line.drop_first())
    } else {
        0
    }
}

/// Whether a line is a header line: it has a `:`.
pub open spec fn is_header_line(line: Seq<char>) -> bool {
    colon_position(line) < line.len()
}

/// The key of a header line: what stands before the first `:`.
pub open spec fn header_key(line: Seq<char>) -> Seq<char> {
    line.take(colon_position(line) as int)
}

/// The value of a header line: what follows the first `:`, without
/// whitespace at its start and end.
pub open spec fn header_value(line: Seq<char>) -> Seq<char> {
    trim(line.skip(colon_position(line) as int + 1))
}

/// The position of the first `:` lies within the line, and no `:` comes
/// before it.
pub proof fn lemma_colon_position(line: Seq<char>)
    ensures
        colon_position(line) <= line.len(),
        colon_position(line) < line.len() ==> line[colon_position(line) as int] == ':',
        forall|i: int| 0 <= i < colon_position(line) ==> #[trigger] line[i] != ':',
    decreases line.len(),
{
    if line.len() > 0 && line[0] != ':' {
        lemma_colon_position(line.drop_first());
        let n = colon_position(line) as int;
        assert forall|i: int| 0 <= i < n implies #[trigger] line[i] != ':' by {
            if i > 0 {
                assert(line[i] == line.drop_first()[i - 1]);
            }
        }
        if n < line.len() {
            assert(line[n] == line.drop_first()[n - 1]);
        }
    }
}

/// A header line of a message.
#[derive(Debug, PartialEq, Eq)]
pub struct Header {
    header_line: String,
    key_end: usize,
    value_start: usize,
    value_end: usize,
}

impl Header {
    /// The header line.
    pub closed spec fn line(&self) -> Seq<char> {
        self.header_line@
    }

    #[verifier::type_invariant]
    spec fn well_formed(&self) -> bool {
        &&& self.key_end == colon_position(self.header_line@)
        &&& self.key_end < self.value_start <= self.value_end <= self.header_line@.len()
        &&& self.header_line@.subrange(self.value_start as int, self.value_end as int)
            == header_value(self.header_line@)
    }

    /// Reads a header line. A line without a `:` is refused as invalid
    /// data.
    pub fn new(header_line: String) -> (r: Result<Header, HttpClientError>)
        ensures
            is_header_line(header_line@) ==> (r matches Ok(header) && header.line()
                == header_line@),
            !is_header_line(header_line@) ==> (r matches Err(e) && e.kind()
                == crate::error::ErrorKind::InvalidData),
    {
        let chars = str_chars(header_line.as_str());
        let mut key_end: usize = 0;
        assert(chars@.skip(0) =~= chars@);
        while key_end < chars.len() && chars[key_end] != ':'
            invariant
                key_end <= chars.len(),
                chars@ == header_line@,
                colon_position(chars@) == key_end + colon_position(chars@.skip(key_end as int)),
            decreases chars.len() - key_end,
        {
            assert(chars@.skip(key_end as int).drop_first() =~= chars@.skip(key_end as int + 1));
            key_end += 1;
        }
        if key_end >= chars.len() {
            return Err(
                HttpClientError::invalid_data("malformed header: missing colon separator"),
            );
        }
        assert(chars@.skip(key_end as int)[0] == ':');
        assert(colon_position(chars@) == key_end);
        let rest: Vec<char> = vstd::slice::slice_to_vec(
            vstd::slice::slice_subrange(chars.as_slice(), key_end + 1, chars.len()),
        );
        assert(rest@ =~= chars@.skip(key_end + 1));
        let (from, to) = trim_bounds(&rest);
        let value_start = key_end + 1 + from;
        let value_end = key_end + 1 + to;
        assert(chars@.subrange(value_start as int, value_end as int) =~= rest@.subrange(
            from as int,
            to as int,
        ));
        Ok(Header { header_line, key_end, value_start, value_end })
    }

    /// The key of the header.
    pub fn key(&self) -> (key: &str)
        ensures
            key@ == header_key(self.line()),
    {
        proof {
            use_type_invariant(self);
        }
        self.header_line.as_str().substring_char(0, self.key_end)
    }

    /// The value of the header.
    pub fn value(&self) -> (value: &str)
        ensures
            value@ == header_value(self.line()),
    {
        proof {
            use_type_invariant(self);
        }
        self.header_line.as_str().substring_char(self.value_start, self.value_end)
    }

    /// The header line.
    pub fn as_str(&self) -> (line: &str)
        ensures
            line@ == self.line(),
            is_header_line(line@),
    {
        proof {
            use_type_invariant(self);
        }
        self.header_line.as_str()
    }
}

} // verus!
