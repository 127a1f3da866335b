//! The response of an HTTP exchange: its status, its headers and its body.

use crate::error::{ErrorKind, IoError};
use crate::util::http::error::HttpClientError;
use crate::util::http::message::{
    header_key, header_value, is_header_line, is_status_line, Header, HttpStatus,
};
use crate::util::http::numbers::{parse_trimmed_number, trimmed_number};
use crate::util::http::request::{Connection, State};
use crate::util::io::Read;
use crate::util::text::{
    chars_eq_ignore_ascii_case, eq_ignore_ascii_case, str_chars, string_from_chars, trim,
    trim_bounds, trim_end,
};
use vstd::prelude::*;
use vstd::utf8::{decode_utf8, valid_utf8};

verus! {

/// The status line of the response is to be read.
pub struct ReadResponseStatus;

/// The headers of the response are to be read.
pub struct ReadResponseHeaders;

/// The body of the response is to be read.
pub struct ReadResponseBody;

impl State for ReadResponseStatus {

}

impl State for ReadResponseHeaders {

}

impl State for ReadResponseBody {

}

/// The longest line that can be read, in bytes, its end included: as many
/// bytes as the machine can count.
pub const MAX_LINE_LEN: usize = usize::MAX;

/// The most headers that can be passed over on the way to the body: as
/// many as the machine can count.
pub const MAX_HEADERS: usize = usize::MAX;

/// How the body of a message is transferred.
#[derive(Debug, Clone, Copy, PartialEq, Eq, Structural)]
pub enum TransferEncodingType {
    /// In chunks, each with its length in front.
    Chunked,
    /// As it is, with the given length.
    FixedSize(usize),
}

/// Turns bytes into a `String` with `String::from_utf8`, which accepts
/// exactly the bytes that are valid UTF-8 and keeps the text that they
/// encode.
#[verifier::external_body]
fn string_from_utf8(bytes: Vec<u8>) -> (r: Option<String>)
    ensures
        match r {
            Some(text) => valid_utf8(bytes@) && text@ == decode_utf8(bytes@),
            None => !valid_utf8(bytes@),
        },
{
    String::from_utf8(bytes).ok()
}

/// The length of the first line of `stream`, its end included: up to the
/// first line feed, or all of the stream if there is none.
pub open spec fn line_len(stream: Seq<u8>) -> nat
    decreases stream.len(),
{
    if stream.len() == 0 {
        0
    } else if stream[0] == 10 {
        1
    } else {
        1 + line_len(stream.drop_first())
    }
}

/// A line lies within its stream, ends with the first line feed if it does
/// not end the stream, and holds no line feed before its end.
pub proof fn lemma_line_len(stream: Seq<u8>)
    ensures
        line_len(stream) <= stream.len(),
        stream.len() > 0 ==> line_len(stream) > 0,
        forall|i: int| 0 <= i < line_len(stream) - 1 ==> #[trigger] stream[i] != 10,
        line_len(stream) < stream.len() ==> stream[line_len(stream) - 1] == 10,
    decreases stream.len(),
{
    if stream.len() > 0 && stream[0] != 10 {
        lemma_line_len(stream.drop_first());
        let n = line_len(stream) as int;
        assert forall|i: int| 0 <= i < n - 1 implies #[trigger] stream[i] != 10 by {
            if i > 0 {
                assert(stream[i] == stream.drop_first()[i - 1]);
            }
        }
        if n < stream.len() {
            assert(stream[n - 1] == stream.drop_first()[n - 2]);
        }
    }
}

/// Whether the first line of `stream` does not end within the longest
/// length that is read.
pub open spec fn is_too_long(stream: Seq<u8>) -> bool {
    line_len(stream) > MAX_LINE_LEN || (line_len(stream) == MAX_LINE_LEN && stream[MAX_LINE_LEN
        - 1] != 10)
}

/// What reading a line from `stream` gives: the text of the first line, or
/// the kind of the error for a line that is too long or no valid UTF-8.
pub open spec fn read_line_spec(stream: Seq<u8>) -> Result<Seq<char>, ErrorKind> {
    let n = line_len(stream);
    if is_too_long(stream) {
        Err(ErrorKind::InvalidData)
    } else if !valid_utf8(stream.take(n as int)) {
        Err(ErrorKind::InvalidData)
    } else {
        Ok(decode_utf8(stream.take(n as int)))
    }
}

/// What is left of `stream` after a line was read from it.
pub open spec fn after_line(stream: Seq<u8>) -> Seq<u8> {
    let n = line_len(stream);
    if n > MAX_LINE_LEN {
        stream.skip(MAX_LINE_LEN as int)
    } else {
        stream.skip(n as int)
    }
}

/// Reads a line, with its end, from `reader`. The line ends with the first
/// line feed, or with the data.
pub fn read_line<R: Read>(reader: &mut R) -> (r: Result<String, HttpClientError>)
    ensures
        final(reader).reliable() == old(reader).reliable(),
        old(reader).reliable() ==> final(reader).remaining() == after_line(
            old(reader).remaining(),
        ) && (match read_line_spec(old(reader).remaining()) {
            Ok(line) => r matches Ok(text) && text@ == line,
            Err(kind) => r matches Err(e) && e.kind() == kind,
        }),
{
    let ghost stream = reader.remaining();
    let ghost reliable = reader.reliable();
    let mut line: Vec<u8> = Vec::new();
    let mut done = false;
    proof {
        assert(stream.take(0) =~= Seq::<u8>::empty());
        assert(stream.skip(0) =~= stream);
    }
    while !done && line.len() < MAX_LINE_LEN
        invariant
            line.len() <= MAX_LINE_LEN,
            reader.reliable() == reliable,
            reliable == old(reader).reliable(),
            stream == old(reader).remaining(),
            reliable ==> line.len() <= stream.len() && line@ == stream.take(line.len() as int)
                && reader.remaining() == stream.skip(line.len() as int),
            reliable && !done ==> line_len(stream) == line.len() + line_len(
                stream.skip(line.len() as int),
            ) && (line.len() > 0 ==> line@[line.len() - 1] != 10),
            reliable && done ==> line_len(stream) == line.len() && (line.len() < MAX_LINE_LEN
                || line@[line.len() - 1] == 10),
        decreases MAX_LINE_LEN - line.len() + (if done { 0int } else { 1int }),
    {
        let ghost rest = reader.remaining();
        match reader.read(1) {
            Ok(bytes) => {
                if bytes.len() == 0 {
                    done = true;
                } else if bytes.len() != 1 {
                    return Err(HttpClientError::invalid_data("failed to read a single byte"));
                } else {
                    let byte = bytes[0];
                    proof {
                        if reliable {
                            assert(rest.len() > 0);
                            assert(bytes@ =~= rest.take(1));
                            assert(byte == rest[0]);
                            assert(rest[0] == stream[line.len() as int]);
                            assert(stream.take(line.len() as int).push(byte) =~= stream.take(
                                line.len() + 1,
                            ));
                            assert(rest.skip(1) =~= stream.skip(line.len() + 1));
                            assert(rest.drop_first() =~= stream.skip(line.len() + 1));
                        }
                    }
                    line.push(byte);
                    if byte == 10 {
                        done = true;
                    }
                }
            },
            Err(e) => {
                return Err(HttpClientError::from_io(e));
            },
        }
    }
    if !done {
        proof {
            if reliable {
                lemma_line_len(stream.skip(line.len() as int));
                lemma_line_len(stream);
            }
        }
        return Err(HttpClientError::invalid_data("line is too long"));
    }
    proof {
        if reliable {
            lemma_line_len(stream);
            if line.len() == MAX_LINE_LEN {
                assert(line@[line.len() - 1] == 10);
            }
        }
    }
    match string_from_utf8(line) {
        Some(text) => Ok(text),
        None => Err(HttpClientError::invalid_data("stream did not contain valid UTF-8")),
    }
}

/// What reading the status line from `stream` gives: the line without
/// whitespace at its end, or the kind of the error.
pub open spec fn status_spec(stream: Seq<u8>) -> Result<Seq<char>, ErrorKind> {
    match read_line_spec(stream) {
        Ok(line) => if is_status_line(trim_end(line)) {
            Ok(trim_end(line))
        } else {
            Err(ErrorKind::InvalidData)
        },
        Err(kind) => Err(kind),
    }
}

/// What the next line of the headers is.
pub enum HeaderStep {
    /// The empty line that ends the headers.
    End,
    /// A header; `encoding` is how the body is transferred as far as the
    /// headers up to this one tell.
    Header { line: Seq<char>, encoding: Option<TransferEncodingType> },
    /// A line that ends the reading with an error of this kind.
    Fail(ErrorKind),
}

/// What the next line of the headers in `stream` is, where the headers
/// before it said that the body is transferred as `encoding` says.
pub open spec fn header_step(stream: Seq<u8>, encoding: Option<TransferEncodingType>)
    -> HeaderStep {
    match read_line_spec(stream) {
        Err(kind) => HeaderStep::Fail(kind),
        Ok(line) => if trim(line).len() == 0 {
            HeaderStep::End
        } else if !is_header_line(line) {
            HeaderStep::Fail(ErrorKind::InvalidData)
        } else if eq_ignore_ascii_case(header_key(line), "Transfer-Encoding"@) {
            if eq_ignore_ascii_case(header_value(line), "chunked"@) {
                HeaderStep::Header { line, encoding: Some(TransferEncodingType::Chunked) }
            } else {
                HeaderStep::Fail(ErrorKind::Unsupported)
            }
        } else if eq_ignore_ascii_case(header_key(line), "Content-Length"@) {
            match trimmed_number(10, header_value(line)) {
                Some(size) => HeaderStep::Header {
                    line,
                    encoding: Some(TransferEncodingType::FixedSize(size)),
                },
                None => HeaderStep::Fail(ErrorKind::InvalidData),
            }
        } else {
            HeaderStep::Header { line, encoding }
        },
    }
}

/// Where the headers in `stream` end, if at most `limit` lines are read:
/// how the body is transferred and what is left of the stream, or the kind
/// of the error that ends the reading.
pub open spec fn headers_end(
    stream: Seq<u8>,
    encoding: Option<TransferEncodingType>,
    limit: nat,
) -> Result<(Option<TransferEncodingType>, Seq<u8>), ErrorKind>
    decreases limit,
{
    if limit == 0 {
        Err(ErrorKind::InvalidData)
    } else {
        match header_step(stream, encoding) {
            HeaderStep::End => Ok((encoding, after_line(stream))),
            HeaderStep::Header { line, encoding } => headers_end(
                after_line(stream),
                encoding,
                (limit - 1) as nat,
            ),
            HeaderStep::Fail(kind) => Err(kind),
        }
    }
}

/// The state of the reading of a body.
pub struct BodyState {
    /// How the body is transferred.
    pub encoding: Option<TransferEncodingType>,
    /// Whether the end of the body has been reached.
    pub is_eof: bool,
    /// The bytes that are left of the body, or of its current chunk.
    pub chunk_bytes_remaining: usize,
    /// What is left of the stream.
    pub stream: Seq<u8>,
}

/// The lesser of two numbers.
pub open spec fn least(a: int, b: int) -> int {
    if a <= b {
        a
    } else {
        b
    }
}

/// The reading of at most `max_len` bytes of the current chunk, or of a
/// body of a fixed size. After the last byte of a chunk, the end of its line
/// is read.
pub open spec fn data_read(state: BodyState, max_len: usize, chunked: bool) -> (
    Result<Seq<u8>, ErrorKind>,
    BodyState,
) {
    let n = least(least(max_len as int, state.chunk_bytes_remaining as int), state.stream.len() as int);
    let left = (state.chunk_bytes_remaining - n) as usize;
    let rest = state.stream.skip(n);
    if left != 0 {
        (
            Ok(state.stream.take(n)),
            BodyState {
                encoding: state.encoding,
                is_eof: false,
                chunk_bytes_remaining: left,
                stream: rest,
            },
        )
    } else if !chunked {
        (
            Ok(state.stream.take(n)),
            BodyState {
                encoding: state.encoding,
                is_eof: true,
                chunk_bytes_remaining: 0,
                stream: rest,
            },
        )
    } else if rest.len() >= 2 {
        (
            Ok(state.stream.take(n)),
            BodyState {
                encoding: state.encoding,
                is_eof: false,
                chunk_bytes_remaining: 0,
                stream: rest.skip(2),
            },
        )
    } else {
        (Err(ErrorKind::InvalidData), state)
    }
}

/// One read of at most `max_len` bytes of a body: the bytes or the kind of
/// the error, and the state afterwards. After an error the state is of no
/// use.
pub open spec fn body_read(state: BodyState, max_len: usize) -> (
    Result<Seq<u8>, ErrorKind>,
    BodyState,
) {
    if state.is_eof {
        (Ok(Seq::empty()), state)
    } else {
        match state.encoding {
            None => (
                Ok(Seq::empty()),
                BodyState {
                    encoding: state.encoding,
                    is_eof: true,
                    chunk_bytes_remaining: state.chunk_bytes_remaining,
                    stream: state.stream,
                },
            ),
            Some(TransferEncodingType::FixedSize(_)) => data_read(state, max_len, false),
            Some(TransferEncodingType::Chunked) => if state.chunk_bytes_remaining != 0 {
                data_read(state, max_len, true)
            } else {
                match read_line_spec(state.stream) {
                    Err(kind) => (Err(kind), state),
                    Ok(line) => match trimmed_number(16, line) {
                        None => (Err(ErrorKind::InvalidData), state),
                        Some(size) => {
                            let rest = after_line(state.stream);
                            if size == 0 {
                                (
                                    Ok(Seq::empty()),
                                    BodyState {
                                        encoding: state.encoding,
                                        is_eof: true,
                                        chunk_bytes_remaining: 0,
                                        stream: rest.skip(least(2, rest.len() as int)),
                                    },
                                )
                            } else {
                                data_read(
                                    BodyState {
                                        encoding: state.encoding,
                                        is_eof: false,
                                        chunk_bytes_remaining: size,
                                        stream: rest,
                                    },
                                    max_len,
                                    true,
                                )
                            }
                        },
                    },
                }
            },
        }
    }
}

/// Whether `r` is what reading a message from what a connection handed out
/// gives: a reader for the message on the reader that was handed out, or the
/// error of the connection as an I/O error.
pub open spec fn reads_from<R: Read, S: State>(
    handed: Result<R, IoError>,
    r: Result<HttpMessageReader<R, S>, HttpClientError>,
) -> bool {
    match handed {
        Ok(reader) => r matches Ok(message) && message.source() == reader,
        Err(e) => r matches Err(failed) && failed == HttpClientError::IoError(e),
    }
}

/// Reads a message from a source of bytes, part by part.
pub struct HttpMessageReader<R: Read, S: State> {
    reader: R,
    transfer_encoding: Option<TransferEncodingType>,
    headers_exhausted: bool,
    is_eof: bool,
    chunk_bytes_remaining: usize,
    state: S,
    request: Ghost<Seq<u8>>,
    request_known: Ghost<bool>,
}

impl<R: Read, S: State> HttpMessageReader<R, S> {
    /// The reader that the message is read from.
    pub closed spec fn source(&self) -> R {
        self.reader
    }

    /// What had been sent over the connection when the reading of the
    /// message began: the request that the message answers. Empty for a
    /// message that was not read from a connection.
    pub closed spec fn request_sent(&self) -> Seq<u8> {
        self.request@
    }

    /// Whether what had been sent is known: the message is read from a
    /// connection, and the connection took all that was written to it.
    pub closed spec fn request_known(&self) -> bool {
        self.request_known@
    }

    /// Whether `other` answers the same request as this message.
    pub open spec fn same_request<T: State>(&self, other: HttpMessageReader<R, T>) -> bool {
        other.request_sent() == self.request_sent() && other.request_known()
            == self.request_known()
    }

    /// What is left to be read from the source.
    pub open spec fn stream(&self) -> Seq<u8> {
        self.source().remaining()
    }

    /// Whether the source behaves exactly as its model says.
    pub open spec fn is_reliable(&self) -> bool {
        self.source().reliable()
    }

    /// How the body is transferred, as far as the headers read so far tell.
    pub closed spec fn encoding(&self) -> Option<TransferEncodingType> {
        self.transfer_encoding
    }

    /// Whether the end of the headers has been read.
    pub closed spec fn exhausted(&self) -> bool {
        self.headers_exhausted
    }

    /// The state of the reading of the body.
    pub closed spec fn body_state(&self) -> BodyState {
        BodyState {
            encoding: self.transfer_encoding,
            is_eof: self.is_eof,
            chunk_bytes_remaining: self.chunk_bytes_remaining,
            stream: self.reader.remaining(),
        }
    }
}

impl<R: Read> HttpMessageReader<R, ReadResponseStatus> {
    /// Creates a reader for a message that starts with a status line.
    pub fn new(reader: R) -> (message: Self)
        ensures
            message.stream() == reader.remaining(),
            message.is_reliable() == reader.reliable(),
            message.encoding() is None,
            !message.exhausted(),
            !message.request_known(),
            message.request_sent() == Seq::<u8>::empty(),
            message.source() == reader,
    {
        HttpMessageReader {
            reader,
            transfer_encoding: None,
            headers_exhausted: false,
            is_eof: false,
            chunk_bytes_remaining: 0,
            state: ReadResponseStatus,
            request: Ghost(Seq::empty()),
            request_known: Ghost(false),
        }
    }

    /// Ends the writing to `connection` and creates a reader for the
    /// message that answers what was sent over it. Whether the connection
    /// hands out the answer is for the connection to decide; if it does not,
    /// that is an I/O error.
    pub fn answering<W: Connection<Reader = R>>(connection: W) -> (r: Result<Self, HttpClientError>)
        ensures
            r matches Ok(message) ==> message.request_sent() == connection.written()
                && message.request_known() == connection.reliable() && message.encoding() is None
                && !message.exhausted(),
            r matches Err(e) ==> e is IoError,
            exists|handed: Result<R, IoError>| #[trigger]
                connection.hands_out(handed) && reads_from(handed, r),
    {
        let ghost sent = connection.written();
        let ghost known = connection.reliable();
        let handed = connection.into_reader();
        let ghost seen = handed;
        let r = match handed {
            Ok(reader) => Ok(
                HttpMessageReader {
                    reader,
                    transfer_encoding: None,
                    headers_exhausted: false,
                    is_eof: false,
                    chunk_bytes_remaining: 0,
                    state: ReadResponseStatus,
                    request: Ghost(sent),
                    request_known: Ghost(known),
                },
            ),
            Err(e) => Err(HttpClientError::from_io(e)),
        };
        proof {
            assert(connection.hands_out(seen) && reads_from(seen, r));
        }
        r
    }

    /// Reads the status line.
    pub fn read_status(self) -> (r: Result<
        (HttpStatus, HttpMessageReader<R, ReadResponseHeaders>),
        HttpClientError,
    >)
        ensures
            r matches Ok((_, next)) ==> self.same_request(next),
            self.is_reliable() ==> (match status_spec(self.stream()) {
                Ok(line) => r matches Ok((status, next)) && status.line() == line && next.stream()
                    == after_line(self.stream()) && next.is_reliable() && next.encoding()
                    == self.encoding() && next.exhausted() == self.exhausted(),
                Err(kind) => r matches Err(e) && e.kind() == kind,
            }),
    {
        let mut message = self;
        let line = read_line(&mut message.reader)?;
        let chars = str_chars(line.as_str());
        let mut end: usize = chars.len();
        assert(chars@.subrange(0, end as int) =~= chars@);
        while end > 0 && crate::util::text::char_is_whitespace(chars[end - 1])
            invariant
                end <= chars.len(),
                trim_end(chars@) == trim_end(chars@.subrange(0, end as int)),
            decreases end,
        {
            assert(chars@.subrange(0, end as int).drop_last() =~= chars@.subrange(
                0,
                end as int - 1,
            ));
            end -= 1;
        }
        let trimmed = string_from_chars(vstd::slice::slice_subrange(chars.as_slice(), 0, end));
        let status = HttpStatus::new(trimmed)?;
        Ok(
            (
                status,
                HttpMessageReader {
                    reader: message.reader,
                    transfer_encoding: message.transfer_encoding,
                    headers_exhausted: message.headers_exhausted,
                    is_eof: message.is_eof,
                    chunk_bytes_remaining: message.chunk_bytes_remaining,
                    state: ReadResponseHeaders,
                    request: message.request,
                    request_known: message.request_known,
                },
            ),
        )
    }
}

impl<R: Read> HttpMessageReader<R, ReadResponseHeaders> {
    /// Creates a reader for a message whose first line has been read.
    pub fn new_skip_status_line(reader: R) -> (message: Self)
        ensures
            message.stream() == reader.remaining(),
            message.is_reliable() == reader.reliable(),
            message.encoding() is None,
            !message.exhausted(),
            !message.request_known(),
            message.request_sent() == Seq::<u8>::empty(),
            message.source() == reader,
    {
        HttpMessageReader {
            reader,
            transfer_encoding: None,
            headers_exhausted: false,
            is_eof: false,
            chunk_bytes_remaining: 0,
            state: ReadResponseHeaders,
            request: Ghost(Seq::empty()),
            request_known: Ghost(false),
        }
    }

    /// Reads the next header; `None` at the end of the headers. A header
    /// that says how the body is transferred is taken note of.
    pub fn read_next_header(&mut self) -> (r: Result<Option<Header>, HttpClientError>)
        ensures
            old(self).same_request(*final(self)),
            final(self).is_reliable() == old(self).is_reliable(),
            old(self).exhausted() ==> (r matches Ok(None) && final(self).stream()
                == old(self).stream() && final(self).encoding() == old(self).encoding()
                && final(self).exhausted()),
            old(self).is_reliable() && !old(self).exhausted() ==> final(self).stream()
                == after_line(old(self).stream()) && (match header_step(
                old(self).stream(),
                old(self).encoding(),
            ) {
                HeaderStep::End => r matches Ok(None) && final(self).exhausted()
                    && final(self).encoding() == old(self).encoding(),
                HeaderStep::Header { line, encoding } => r matches Ok(Some(header))
                    && header.line() == line && final(self).encoding() == encoding
                    && !final(self).exhausted(),
                HeaderStep::Fail(kind) => r matches Err(e) && e.kind() == kind,
            }),
    {
        if self.headers_exhausted {
            return Ok(None);
        }
        let line = read_line(&mut self.reader)?;
        let chars = str_chars(line.as_str());
        let (from, to) = trim_bounds(&chars);
        if from == to {
            self.headers_exhausted = true;
            return Ok(None);
        }
        let header = Header::new(line)?;
        let key = str_chars(header.key());
        let value = str_chars(header.value());
        let transfer_encoding = str_chars("Transfer-Encoding");
        let content_length = str_chars("Content-Length");
        if chars_eq_ignore_ascii_case(key.as_slice(), transfer_encoding.as_slice()) {
            let chunked = str_chars("chunked");
            if chars_eq_ignore_ascii_case(value.as_slice(), chunked.as_slice()) {
                self.transfer_encoding = Some(TransferEncodingType::Chunked);
            } else {
                return Err(HttpClientError::unsupported("transfer encoding"));
            }
        } else if chars_eq_ignore_ascii_case(key.as_slice(), content_length.as_slice()) {
            match parse_trimmed_number(10, &value) {
                Some(size) => {
                    self.transfer_encoding = Some(TransferEncodingType::FixedSize(size));
                },
                None => {
                    return Err(
                        HttpClientError::invalid_data("invalid Content-Length header value"),
                    );
                },
            }
        }
        Ok(Some(header))
    }

    /// Passes over what is left of the headers and goes on to the body.
    pub fn read_body(self) -> (r: Result<HttpMessageReader<R, ReadResponseBody>, HttpClientError>)
        ensures
            r matches Ok(body) ==> self.same_request(body),
            self.is_reliable() && self.exhausted() ==> (r matches Ok(body) && body.is_reliable()
                && body.body_state() == start_of_body(self.encoding(), self.stream())),
            self.is_reliable() && !self.exhausted() ==> (match headers_end(
                self.stream(),
                self.encoding(),
                MAX_HEADERS as nat,
            ) {
                Ok((encoding, rest)) => r matches Ok(body) && body.is_reliable()
                    && body.body_state() == start_of_body(encoding, rest),
                Err(kind) => r matches Err(e) && e.kind() == kind,
            }),
    {
        let mut message = self;
        let mut left: usize = MAX_HEADERS;
        while !message.headers_exhausted
            invariant
                message.is_reliable() == self.is_reliable(),
                self.same_request(message),
                self.is_reliable() && self.exhausted() ==> message.exhausted() && message.stream()
                    == self.stream() && message.encoding() == self.encoding(),
                self.is_reliable() && !self.exhausted() && !message.exhausted() ==> headers_end(
                    self.stream(),
                    self.encoding(),
                    MAX_HEADERS as nat,
                ) == headers_end(message.stream(), message.encoding(), left as nat),
                self.is_reliable() && !self.exhausted() && message.exhausted() ==> headers_end(
                    self.stream(),
                    self.encoding(),
                    MAX_HEADERS as nat,
                ) == Ok::<(Option<TransferEncodingType>, Seq<u8>), ErrorKind>(
                    (message.encoding(), message.stream()),
                ),
            decreases left,
        {
            if left == 0 {
                return Err(HttpClientError::invalid_data("too many headers"));
            }
            message.read_next_header()?;
            left -= 1;
        }
        Ok(
            HttpMessageReader {
                chunk_bytes_remaining: match message.transfer_encoding {
                    None => 0,
                    Some(TransferEncodingType::Chunked) => 0,
                    Some(TransferEncodingType::FixedSize(size)) => size,
                },
                reader: message.reader,
                transfer_encoding: message.transfer_encoding,
                headers_exhausted: true,
                is_eof: false,
                state: ReadResponseBody,
                request: message.request,
                request_known: message.request_known,
            },
        )
    }
}

/// The state in which the reading of a body starts.
pub open spec fn start_of_body(encoding: Option<TransferEncodingType>, stream: Seq<u8>)
    -> BodyState {
    BodyState {
        encoding,
        is_eof: false,
        chunk_bytes_remaining: match encoding {
            Some(TransferEncodingType::FixedSize(size)) => size,
            _ => 0,
        },
        stream,
    }
}

impl<R: Read> HttpMessageReader<R, ReadResponseBody> {
    /// Reads at most `max_len` bytes of what is left of the current chunk,
    /// or of a body of a fixed size.
    fn read_data(&mut self, max_len: usize, chunked: bool) -> (r: Result<Vec<u8>, IoError>)
        requires
            !old(self).body_state().is_eof,
        ensures
            old(self).same_request(*final(self)),
            final(self).is_reliable() == old(self).is_reliable(),
            old(self).is_reliable() ==> (match data_read(old(self).body_state(), max_len, chunked).0 {
                Ok(bytes) => r matches Ok(data) && data@ == bytes && final(self).body_state()
                    == data_read(old(self).body_state(), max_len, chunked).1,
                Err(kind) => r matches Err(e) && e.kind == kind,
            }),
    {
        let max_n = if max_len <= self.chunk_bytes_remaining {
            max_len
        } else {
            self.chunk_bytes_remaining
        };
        let ghost before = self.reader.remaining();
        let data = self.reader.read(max_n)?;
        if data.len() > self.chunk_bytes_remaining {
            return Err(IoError::new(ErrorKind::InvalidData, "read more than was asked for"));
        }
        self.chunk_bytes_remaining = self.chunk_bytes_remaining - data.len();
        if self.chunk_bytes_remaining == 0 {
            if chunked {
                crate::util::io::read_exact(&mut self.reader, 2)?;
            } else {
                self.is_eof = true;
            }
        }
        proof {
            if old(self).is_reliable() {
                let n = least(
                    least(max_len as int, old(self).chunk_bytes_remaining as int),
                    before.len() as int,
                );
                assert(data@ == before.take(n));
            }
        }
        Ok(data)
    }
}

impl<R: Read> Read for HttpMessageReader<R, ReadResponseBody> {
    closed spec fn remaining(&self) -> Seq<u8> {
        self.reader.remaining()
    }

    open spec fn reliable(&self) -> bool {
        false
    }

    /// Reads at most `max_len` bytes of the body.
    fn read(&mut self, max_len: usize) -> (r: Result<Vec<u8>, IoError>)
        ensures
            old(self).same_request(*final(self)),
            final(self).is_reliable() == old(self).is_reliable(),
            old(self).is_reliable() ==> (match body_read(old(self).body_state(), max_len).0 {
                Ok(bytes) => r matches Ok(data) && data@ == bytes && final(self).body_state()
                    == body_read(old(self).body_state(), max_len).1,
                Err(kind) => r matches Err(e) && e.kind == kind,
            }),
    {
        if self.is_eof {
            return Ok(Vec::new());
        }
        match self.transfer_encoding {
            None => {
                self.is_eof = true;
                Ok(Vec::new())
            },
            Some(TransferEncodingType::FixedSize(_)) => self.read_data(max_len, false),
            Some(TransferEncodingType::Chunked) => {
                if self.chunk_bytes_remaining == 0 {
                    let line = match read_line(&mut self.reader) {
                        Ok(line) => line,
                        Err(e) => {
                            return Err(e.into_io_error());
                        },
                    };
                    let chars = str_chars(line.as_str());
                    let size = match parse_trimmed_number(16, &chars) {
                        Some(size) => size,
                        None => {
                            return Err(IoError::new(ErrorKind::InvalidData, "invalid chunk size"));
                        },
                    };
                    self.chunk_bytes_remaining = size;
                    if size == 0 {
                        self.reader.read(2)?;
                        self.is_eof = true;
                        return Ok(Vec::new());
                    }
                }
                self.read_data(max_len, true)
            },
        }
    }
}

/// A response in the state `S`, read from `R`.
pub struct HttpResponse<S: State, R: Read> {
    inner: HttpMessageReader<R, S>,
}

impl<S: State, R: Read> HttpResponse<S, R> {
    /// The response that is read by `inner`.
    pub fn new(inner: HttpMessageReader<R, S>) -> (response: Self)
        ensures
            response.reader() == inner,
    {
        HttpResponse { inner }
    }

    /// The reader of the response.
    pub closed spec fn reader(&self) -> HttpMessageReader<R, S> {
        self.inner
    }
}

impl<R: Read> HttpResponse<ReadResponseStatus, R> {
    /// Reads the status line.
    pub fn read_status(self) -> (r: Result<
        (HttpStatus, HttpResponse<ReadResponseHeaders, R>),
        HttpClientError,
    >)
        ensures
            r matches Ok((_, next)) ==> self.reader().same_request(next.reader()),
            self.reader().is_reliable() ==> (match status_spec(self.reader().stream()) {
                Ok(line) => r matches Ok((status, next)) && status.line() == line
                    && next.reader().stream() == after_line(self.reader().stream())
                    && next.reader().is_reliable() && next.reader().encoding()
                    == self.reader().encoding() && next.reader().exhausted()
                    == self.reader().exhausted(),
                Err(kind) => r matches Err(e) && e.kind() == kind,
            }),
    {
        let (status, inner) = self.inner.read_status()?;
        Ok((status, HttpResponse { inner }))
    }
}

impl<R: Read> HttpResponse<ReadResponseHeaders, R> {
    /// Reads the next header; `None` at the end of the headers, and ever
    /// after.
    pub fn read_next_header(&mut self) -> (r: Result<Option<Header>, HttpClientError>)
        ensures
            old(self).reader().same_request(final(self).reader()),
            final(self).reader().is_reliable() == old(self).reader().is_reliable(),
            old(self).reader().exhausted() ==> (r matches Ok(None) && final(self).reader().stream()
                == old(self).reader().stream() && final(self).reader().encoding()
                == old(self).reader().encoding() && final(self).reader().exhausted()),
            old(self).reader().is_reliable() && !old(self).reader().exhausted()
                ==> final(self).reader().stream() == after_line(old(self).reader().stream()) && (
            match header_step(old(self).reader().stream(), old(self).reader().encoding()) {
                HeaderStep::End => r matches Ok(None) && final(self).reader().exhausted()
                    && final(self).reader().encoding() == old(self).reader().encoding(),
                HeaderStep::Header { line, encoding } => r matches Ok(Some(header))
                    && header.line() == line && final(self).reader().encoding() == encoding
                    && !final(self).reader().exhausted(),
                HeaderStep::Fail(kind) => r matches Err(e) && e.kind() == kind,
            }),
    {
        self.inner.read_next_header()
    }

    /// Passes over what is left of the headers and goes on to the body.
    pub fn read_body(self) -> (r: Result<HttpResponse<ReadResponseBody, R>, HttpClientError>)
        ensures
            r matches Ok(body) ==> self.reader().same_request(body.reader()),
            self.reader().is_reliable() && self.reader().exhausted() ==> (r matches Ok(body)
                && body.reader().is_reliable() && body.reader().body_state() == start_of_body(
                self.reader().encoding(),
                self.reader().stream(),
            )),
            self.reader().is_reliable() && !self.reader().exhausted() ==> (match headers_end(
                self.reader().stream(),
                self.reader().encoding(),
                MAX_HEADERS as nat,
            ) {
                Ok((encoding, rest)) => r matches Ok(body) && body.reader().is_reliable()
                    && body.reader().body_state() == start_of_body(encoding, rest),
                Err(kind) => r matches Err(e) && e.kind() == kind,
            }),
    {
        Ok(HttpResponse { inner: self.inner.read_body()? })
    }
}

impl<R: Read> Read for HttpResponse<ReadResponseBody, R> {
    closed spec fn remaining(&self) -> Seq<u8> {
        self.inner.remaining()
    }

    open spec fn reliable(&self) -> bool {
        false
    }

    /// Reads at most `max_len` bytes of the body.
    fn read(&mut self, max_len: usize) -> (r: Result<Vec<u8>, IoError>)
        ensures
            old(self).reader().same_request(final(self).reader()),
            final(self).reader().is_reliable() == old(self).reader().is_reliable(),
            old(self).reader().is_reliable() ==> (match body_read(
                old(self).reader().body_state(),
                max_len,
            ).0 {
                Ok(bytes) => r matches Ok(data) && data@ == bytes
                    && final(self).reader().body_state() == body_read(
                    old(self).reader().body_state(),
                    max_len,
                ).1,
                Err(kind) => r matches Err(e) && e.kind == kind,
            }),
    {
        self.inner.read(max_len)
    }
}

} // verus!
