//! The request of an HTTP exchange: its head and its body.

use crate::error::IoError;
use crate::util::http::error::HttpClientError;
use crate::util::http::numbers::{decimal_digits, decimal_of, hex_digits, hex_of};
use crate::util::http::response::{HttpMessageReader, HttpResponse, ReadResponseStatus};
use crate::util::io::{write_all, Read, Write};
use vstd::prelude::*;
use vstd::utf8::encode_utf8;

verus! {

/// A connection to a server: what is written to it is the request, and
/// what is read from its reader is the response.
pub trait Connection: Write + Sized {
    /// The type of reader for the response.
    type Reader: Read;

    /// Whether the connection, as it is, may hand out `r` when the writing
    /// ends. A connection that says nothing of itself may hand out anything.
    open spec fn hands_out(&self, r: Result<Self::Reader, IoError>) -> bool {
        true
    }

    /// Ends the writing and hands out the reader for the response.
    fn into_reader(self) -> (r: Result<Self::Reader, IoError>)
        ensures
            self.hands_out(r),
    ;
}

/// A state of an HTTP exchange.
pub trait State {

}

/// A way to transfer the body of a request.
pub trait TransferEncoding {

}

/// The choice of a way to transfer the body that may not have been made
/// yet.
pub trait OptionTransferEncoding {

}

/// The request has no body.
pub struct NoBodyTransferEncoding;

/// The body is sent in chunks, each with its length in front.
pub struct ChunkedTransferEncoding;

/// The body is sent as it is; its length is declared in a header.
pub struct FixedSizeTransferEncoding;

impl TransferEncoding for NoBodyTransferEncoding {

}

impl TransferEncoding for ChunkedTransferEncoding {

}

impl TransferEncoding for FixedSizeTransferEncoding {

}

/// The way to transfer the body has not been chosen yet.
pub struct TNone;

/// The way to transfer the body has been chosen.
pub struct TSome<T: TransferEncoding> {
    encoding: T,
}

impl OptionTransferEncoding for TNone {

}

impl<T: TransferEncoding> OptionTransferEncoding for TSome<T> {

}

/// The request line has been sent; headers can be added.
pub struct AwaitingRequestHeaders<T: OptionTransferEncoding> {
    transfer_encoding: T,
}

/// The headers have been sent; the body can be written.
pub struct AwaitingRequestBody<T: TransferEncoding> {
    transfer_encoding: T,
}

impl<T: OptionTransferEncoding> State for AwaitingRequestHeaders<T> {

}

impl<T: TransferEncoding> State for AwaitingRequestBody<T> {

}

/// The end of a line.
pub open spec fn crlf() -> Seq<u8> {
    seq![13u8, 10u8]
}

/// The bytes of a header line with the given key and value.
pub open spec fn header_bytes(key: Seq<char>, value: Seq<char>) -> Seq<u8> {
    encode_utf8(key) + encode_utf8(": "@) + encode_utf8(value) + encode_utf8("\r\n"@)
}

/// The bytes of the request line.
pub open spec fn request_line(method: Seq<char>, path: Seq<char>, query: Option<Seq<char>>) -> Seq<
    u8,
> {
    encode_utf8(method) + encode_utf8(" "@) + encode_utf8(path) + (match query {
        Some(q) => encode_utf8("?"@) + encode_utf8(q),
        None => Seq::empty(),
    }) + encode_utf8(" "@) + encode_utf8("HTTP/1.1"@) + encode_utf8("\r\n"@)
}

/// The bytes that start every request: the request line and the headers
/// that name the host, ask for the connection to be closed and name this
/// client.
pub open spec fn request_head(
    method: Seq<char>,
    path: Seq<char>,
    query: Option<Seq<char>>,
    host: Seq<char>,
) -> Seq<u8> {
    request_line(method, path, query) + header_bytes("Host"@, host) + header_bytes(
        "Connection"@,
        "close"@,
    ) + header_bytes("User-Agent"@, "btdt/0.1.0"@)
}

/// The bytes that a write of `data` to a chunked body sends: nothing for
/// empty data, and else the length in hexadecimal digits, the end of a line,
/// the data, and the end of a line.
pub open spec fn chunk_bytes(data: Seq<u8>) -> Seq<u8> {
    if data.len() == 0 {
        Seq::empty()
    } else {
        hex_digits(data.len()) + crlf() + data + crlf()
    }
}

/// The bytes that end a chunked body.
pub open spec fn last_chunk_bytes() -> Seq<u8> {
    seq![0x30u8] + crlf() + crlf()
}

/// Whether `r` is what a request gives that has sent `last` at its end and
/// then goes on to the response: either `last` could not be sent, on a
/// connection that is not reliable, or the connection, with `last` sent over
/// it, handed out the reader of the response or its error.
pub open spec fn goes_on<W: Connection>(
    reliable: bool,
    sent: Seq<u8>,
    last: Seq<u8>,
    r: Result<HttpResponse<ReadResponseStatus, W::Reader>, HttpClientError>,
) -> bool {
    ||| (!reliable && r is Err)
    ||| exists|connection: W, handed: Result<W::Reader, IoError>| #[trigger]
        connection.hands_out(handed) && connection.reliable() == reliable && (reliable
            ==> connection.written() == sent + last) && answers(handed, r)
}

/// Whether `r` is the response that is read from what a connection handed
/// out, or the error of the connection as an I/O error.
pub open spec fn answers<R: Read>(
    handed: Result<R, IoError>,
    r: Result<HttpResponse<ReadResponseStatus, R>, HttpClientError>,
) -> bool {
    match handed {
        Ok(reader) => r matches Ok(response) && response.reader().source() == reader,
        Err(e) => r matches Err(failed) && failed == HttpClientError::IoError(e),
    }
}

/// Whether what was sent over a connection ends with `tail`.
pub open spec fn ends_with(sent: Seq<u8>, tail: Seq<u8>) -> bool {
    exists|before: Seq<u8>| sent == #[trigger] (before + tail)
}

/// The characters of an optional text.
pub open spec fn text_of(text: Option<&str>) -> Option<Seq<char>> {
    match text {
        Some(t) => Some(t@),
        None => None,
    }
}

/// A request in the state `S`, on the connection `W`.
pub struct HttpRequest<S: State, W: Connection> {
    stream: W,
    state: S,
    payload: Ghost<Seq<u8>>,
}

/// Writes the characters of `text` to `stream`.
fn send_text<W: Write>(stream: &mut W, text: &str) -> (r: Result<(), HttpClientError>)
    ensures
        final(stream).reliable() == old(stream).reliable(),
        final(stream).target() == old(stream).target(),
        old(stream).reliable() ==> r is Ok && final(stream).written() == old(stream).written()
            + encode_utf8(text@),
        r matches Err(e) ==> e is IoError,
{
    match write_all(stream, text.as_bytes()) {
        Ok(()) => Ok(()),
        Err(e) => Err(HttpClientError::from_io(e)),
    }
}

/// Writes `bytes` to `stream`.
fn send_bytes<W: Write>(stream: &mut W, bytes: &[u8]) -> (r: Result<(), HttpClientError>)
    ensures
        final(stream).reliable() == old(stream).reliable(),
        final(stream).target() == old(stream).target(),
        old(stream).reliable() ==> r is Ok && final(stream).written() == old(stream).written()
            + bytes@,
        r matches Err(e) ==> e is IoError,
{
    match write_all(stream, bytes) {
        Ok(()) => Ok(()),
        Err(e) => Err(HttpClientError::from_io(e)),
    }
}

/// Writes a header line to `stream`.
fn send_header<W: Write>(stream: &mut W, key: &str, value: &str) -> (r: Result<(), HttpClientError>)
    ensures
        final(stream).reliable() == old(stream).reliable(),
        final(stream).target() == old(stream).target(),
        old(stream).reliable() ==> r is Ok && final(stream).written() == old(stream).written()
            + header_bytes(key@, value@),
{
    let ghost start = stream.written();
    send_text(stream, key)?;
    send_text(stream, ": ")?;
    send_text(stream, value)?;
    send_text(stream, "\r\n")?;
    proof {
        if old(stream).reliable() {
            assert(stream.written() =~= start + header_bytes(key@, value@));
        }
    }
    Ok(())
}

/// Writes the request line to `stream`.
fn send_request_line<W: Write>(stream: &mut W, method: &str, path: &str, query: Option<&str>) -> (r:
    Result<(), HttpClientError>)
    ensures
        final(stream).reliable() == old(stream).reliable(),
        final(stream).target() == old(stream).target(),
        old(stream).reliable() ==> r is Ok && final(stream).written() == old(stream).written()
            + request_line(method@, path@, text_of(query)),
{
    let ghost start = stream.written();
    send_text(stream, method)?;
    send_text(stream, " ")?;
    send_text(stream, path)?;
    let ghost middle = stream.written();
    proof {
        if old(stream).reliable() {
            assert(middle == start + encode_utf8(method@) + encode_utf8(" "@) + encode_utf8(path@));
        }
    }
    if let Some(q) = query {
        send_text(stream, "?")?;
        send_text(stream, q)?;
    }
    let ghost with_query = stream.written();
    proof {
        if old(stream).reliable() {
            assert(with_query =~= middle + (match text_of(query) {
                Some(q) => encode_utf8("?"@) + encode_utf8(q),
                None => Seq::empty(),
            }));
        }
    }
    send_text(stream, " ")?;
    send_text(stream, "HTTP/1.1")?;
    send_text(stream, "\r\n")?;
    proof {
        if old(stream).reliable() {
            assert(stream.written() =~= start + request_line(method@, path@, text_of(query)));
        }
    }
    Ok(())
}

/// Writes the head of a request to `stream`.
fn send_head<W: Write>(
    stream: &mut W,
    method: &str,
    path: &str,
    query: Option<&str>,
    host: &str,
) -> (r: Result<(), HttpClientError>)
    ensures
        final(stream).reliable() == old(stream).reliable(),
        final(stream).target() == old(stream).target(),
        old(stream).reliable() ==> r is Ok && final(stream).written() == old(stream).written()
            + request_head(method@, path@, text_of(query), host@),
{
    let ghost start = stream.written();
    send_request_line(stream, method, path, query)?;
    send_header(stream, "Host", host)?;
    send_header(stream, "Connection", "close")?;
    send_header(stream, "User-Agent", "btdt/0.1.0")?;
    proof {
        if old(stream).reliable() {
            assert(stream.written() =~= start + request_head(
                method@,
                path@,
                text_of(query),
                host@,
            ));
        }
    }
    Ok(())
}

/// Ends the writing to `connection` and goes on to the response that
/// answers what was sent over it.
fn respond<W: Connection>(connection: W) -> (r: Result<
    HttpResponse<ReadResponseStatus, W::Reader>,
    HttpClientError,
>)
    ensures
        r matches Ok(response) ==> response.reader().encoding() is None
            && !response.reader().exhausted() && response.reader().request_known()
            == connection.reliable() && response.reader().request_sent() == connection.written(),
        r matches Err(e) ==> e is IoError,
        exists|handed: Result<W::Reader, IoError>| #[trigger]
            connection.hands_out(handed) && answers(handed, r),
{
    let read = HttpMessageReader::answering(connection);
    let ghost seen = read;
    let r = match read {
        Ok(message) => Ok(HttpResponse::new(message)),
        Err(e) => Err(e),
    };
    proof {
        let handed = choose|handed: Result<W::Reader, IoError>| #[trigger]
            connection.hands_out(handed) && crate::util::http::response::reads_from(handed, seen);
        assert(connection.hands_out(handed) && answers(handed, r));
    }
    r
}

impl<S: State, W: Connection> HttpRequest<S, W> {
    /// What has been sent over the connection.
    pub closed spec fn sent(&self) -> Seq<u8> {
        self.stream.written()
    }

    /// Whether the connection takes all that is written to it.
    pub closed spec fn is_reliable(&self) -> bool {
        self.stream.reliable()
    }

    /// What has been written to the body of the request.
    pub closed spec fn body_written(&self) -> Seq<u8> {
        self.payload@
    }
}

impl<W: Connection> HttpRequest<AwaitingRequestHeaders<TNone>, W> {
    /// Starts a request on `stream`: sends the request line for `method`
    /// and the target made of `path` and `query`, and the headers that every
    /// request has.
    pub fn method(stream: W, method: &str, path: &str, query: Option<&str>, host: &str) -> (r:
        Result<Self, HttpClientError>)
        ensures
            stream.reliable() ==> (r matches Ok(request) && request.is_reliable() && request.sent()
                == stream.written() + request_head(method@, path@, text_of(query), host@)),
            r matches Ok(request) ==> request.is_reliable() == stream.reliable(),
    {
        let mut stream = stream;
        send_head(&mut stream, method, path, query, host)?;
        Ok(
            HttpRequest {
                stream,
                state: AwaitingRequestHeaders { transfer_encoding: TNone },
                payload: Ghost(Seq::empty()),
            },
        )
    }

    /// Starts a `POST` request.
    pub fn post(stream: W, path: &str, query: Option<&str>, host: &str) -> (r: Result<
        Self,
        HttpClientError,
    >)
        ensures
            stream.reliable() ==> (r matches Ok(request) && request.is_reliable() && request.sent()
                == stream.written() + request_head("POST"@, path@, text_of(query), host@)),
            r matches Ok(request) ==> request.is_reliable() == stream.reliable(),
    {
        Self::method(stream, "POST", path, query, host)
    }

    /// Starts a `PUT` request.
    pub fn put(stream: W, path: &str, query: Option<&str>, host: &str) -> (r: Result<
        Self,
        HttpClientError,
    >)
        ensures
            stream.reliable() ==> (r matches Ok(request) && request.is_reliable() && request.sent()
                == stream.written() + request_head("PUT"@, path@, text_of(query), host@)),
            r matches Ok(request) ==> request.is_reliable() == stream.reliable(),
    {
        Self::method(stream, "PUT", path, query, host)
    }

    /// Ends the headers of a request whose body has `size` bytes, which
    /// are to be written next.
    pub fn body_with_size(self, size: usize) -> (r: Result<
        HttpRequest<AwaitingRequestBody<FixedSizeTransferEncoding>, W>,
        HttpClientError,
    >)
        ensures
            self.is_reliable() ==> (r matches Ok(request) && request.is_reliable()
                && request.sent() == self.sent() + encode_utf8("Content-Length"@) + encode_utf8(
                ": "@,
            ) + decimal_digits(size as nat) + encode_utf8("\r\n"@) + encode_utf8("\r\n"@)
                && request.body_written() == Seq::<u8>::empty()),
            r matches Ok(request) ==> request.is_reliable() == self.is_reliable(),
    {
        let mut stream = self.stream;
        let ghost start = stream.written();
        send_text(&mut stream, "Content-Length")?;
        send_text(&mut stream, ": ")?;
        let digits = decimal_of(size);
        send_bytes(&mut stream, digits.as_slice())?;
        send_text(&mut stream, "\r\n")?;
        send_text(&mut stream, "\r\n")?;
        proof {
            if self.is_reliable() {
                assert(stream.written() =~= start + encode_utf8("Content-Length"@) + encode_utf8(
                    ": "@,
                ) + decimal_digits(size as nat) + encode_utf8("\r\n"@) + encode_utf8("\r\n"@));
            }
        }
        Ok(
            HttpRequest {
                stream,
                state: AwaitingRequestBody { transfer_encoding: FixedSizeTransferEncoding },
                payload: Ghost(Seq::empty()),
            },
        )
    }

    /// Ends the headers of a request whose body is sent in chunks, which
    /// are to be written next.
    pub fn body(self) -> (r: Result<
        HttpRequest<AwaitingRequestBody<ChunkedTransferEncoding>, W>,
        HttpClientError,
    >)
        ensures
            self.is_reliable() ==> (r matches Ok(request) && request.is_reliable()
                && request.sent() == self.sent() + header_bytes(
                "Transfer-Encoding"@,
                "chunked"@,
            ) + encode_utf8("\r\n"@) && request.body_written() == Seq::<u8>::empty()),
            r matches Ok(request) ==> request.is_reliable() == self.is_reliable(),
    {
        let mut stream = self.stream;
        let ghost start = stream.written();
        send_header(&mut stream, "Transfer-Encoding", "chunked")?;
        send_text(&mut stream, "\r\n")?;
        Ok(
            HttpRequest {
                stream,
                state: AwaitingRequestBody { transfer_encoding: ChunkedTransferEncoding },
                payload: Ghost(Seq::empty()),
            },
        )
    }
}

impl<W: Connection> HttpRequest<AwaitingRequestHeaders<TSome<NoBodyTransferEncoding>>, W> {
    /// Starts a `GET` request, which has no body.
    pub fn get(stream: W, path: &str, query: Option<&str>, host: &str) -> (r: Result<
        Self,
        HttpClientError,
    >)
        ensures
            stream.reliable() ==> (r matches Ok(request) && request.is_reliable() && request.sent()
                == stream.written() + request_head("GET"@, path@, text_of(query), host@)),
            r matches Ok(request) ==> request.is_reliable() == stream.reliable(),
    {
        let mut stream = stream;
        send_head(&mut stream, "GET", path, query, host)?;
        Ok(
            HttpRequest {
                stream,
                state: AwaitingRequestHeaders {
                    transfer_encoding: TSome { encoding: NoBodyTransferEncoding },
                },
                payload: Ghost(Seq::empty()),
            },
        )
    }
}

impl<T: OptionTransferEncoding, W: Connection> HttpRequest<AwaitingRequestHeaders<T>, W> {
    /// Adds a header to the request.
    pub fn header(&mut self, key: &str, value: &str) -> (r: Result<(), HttpClientError>)
        ensures
            final(self).is_reliable() == old(self).is_reliable(),
            old(self).is_reliable() ==> r is Ok && final(self).sent() == old(self).sent()
                + header_bytes(key@, value@),
    {
        send_header(&mut self.stream, key, value)
    }

    /// Ends the request without a body: sends the empty line that ends the
    /// headers, as [`HttpRequest::end_headers`] does, and goes on to the
    /// response, of which nothing has been read yet. The response knows the
    /// request that it answers: what had been sent, and the empty line.
    /// Whether the connection hands out the response is for the connection to
    /// decide; if it does not, or does not take the empty line, that is an
    /// I/O error.
    pub fn no_body(self) -> (r: Result<HttpResponse<ReadResponseStatus, W::Reader>, HttpClientError>)
        ensures
            r matches Ok(response) ==> response.reader().encoding() is None
                && !response.reader().exhausted() && response.reader().request_known()
                == self.is_reliable() && (self.is_reliable() ==> response.reader().request_sent()
                == self.sent() + crlf()),
            r matches Err(e) ==> e is IoError,
            goes_on::<W>(self.is_reliable(), self.sent(), crlf(), r),
    {
        let mut request = self;
        request.end_headers()?;
        respond(request.stream)
    }

    /// Sends the empty line that ends the headers. It is the last that a
    /// request without a body sends.
    pub fn end_headers(&mut self) -> (r: Result<(), HttpClientError>)
        ensures
            final(self).is_reliable() == old(self).is_reliable(),
            old(self).is_reliable() ==> r is Ok && final(self).sent() == old(self).sent()
                + crlf(),
            r matches Err(e) ==> e is IoError,
    {
        let end: [u8; 2] = [13, 10];
        let r = send_bytes(&mut self.stream, vstd::array::array_as_slice(&end));
        proof {
            assert(end@ =~= crlf());
        }
        r
    }
}

impl<W: Connection> Write for HttpRequest<AwaitingRequestBody<FixedSizeTransferEncoding>, W> {
    /// What was written is what has been sent over the connection: the
    /// head of the request, and then the body as it is.
    open spec fn written(&self) -> Seq<u8> {
        self.sent()
    }

    open spec fn reliable(&self) -> bool {
        self.is_reliable()
    }

    closed spec fn target(&self) -> Seq<Seq<char>> {
        self.stream.target()
    }

    closed spec fn flushed(&self) -> bool {
        self.stream.flushed()
    }

    fn write(&mut self, buf: &[u8]) -> (r: Result<usize, IoError>) {
        self.stream.write(buf)
    }

    fn flush(&mut self) -> (r: Result<(), IoError>) {
        self.stream.flush()
    }
}

impl<W: Connection> Write for HttpRequest<AwaitingRequestBody<ChunkedTransferEncoding>, W> {
    /// What was written is the body of the request, without the frames of
    /// its chunks.
    open spec fn written(&self) -> Seq<u8> {
        self.body_written()
    }

    open spec fn reliable(&self) -> bool {
        self.is_reliable()
    }

    closed spec fn target(&self) -> Seq<Seq<char>> {
        self.stream.target()
    }

    closed spec fn flushed(&self) -> bool {
        self.stream.flushed()
    }

    /// Sends `buf` as one chunk; an empty `buf` sends nothing.
    fn write(&mut self, buf: &[u8]) -> (r: Result<usize, IoError>)
        ensures
            old(self).reliable() ==> final(self).sent() == old(self).sent() + chunk_bytes(buf@),
    {
        let chunk_size = buf.len();
        if chunk_size > 0 {
            let ghost start = self.stream.written();
            let digits = hex_of(chunk_size);
            let crlf: [u8; 2] = [13, 10];
            write_all(&mut self.stream, digits.as_slice())?;
            write_all(&mut self.stream, vstd::array::array_as_slice(&crlf))?;
            write_all(&mut self.stream, buf)?;
            write_all(&mut self.stream, vstd::array::array_as_slice(&crlf))?;
            proof {
                if old(self).reliable() {
                    assert(crlf@ =~= crate::util::http::request::crlf());
                    assert(self.stream.written() =~= start + chunk_bytes(buf@));
                }
            }
        } else {
            proof {
                assert(self.stream.written() =~= self.stream.written() + chunk_bytes(buf@));
            }
        }
        proof {
            self.payload@ = self.payload@ + buf@;
        }
        Ok(chunk_size)
    }

    fn flush(&mut self) -> (r: Result<(), IoError>)
        ensures
            old(self).reliable() ==> final(self).sent() == old(self).sent(),
    {
        self.stream.flush()
    }
}

impl<W: Connection> HttpRequest<AwaitingRequestBody<FixedSizeTransferEncoding>, W> {
    /// Ends the body and goes on to the response, of which nothing has been
    /// read yet. Whether the connection hands out the response is for the
    /// connection to decide; if it does not, that is an I/O error.
    pub fn response(self) -> (r: Result<HttpResponse<ReadResponseStatus, W::Reader>, HttpClientError>)
        ensures
            r matches Ok(response) ==> response.reader().encoding() is None
                && !response.reader().exhausted() && response.reader().request_known()
                == self.is_reliable() && (self.is_reliable() ==> response.reader().request_sent()
                == self.sent()),
            r matches Err(e) ==> e is IoError,
            goes_on::<W>(self.is_reliable(), self.sent(), Seq::<u8>::empty(), r),
    {
        proof {
            assert(self.stream.written() + Seq::<u8>::empty() =~= self.stream.written());
        }
        respond(self.stream)
    }
}

impl<W: Connection> HttpRequest<AwaitingRequestBody<ChunkedTransferEncoding>, W> {
    /// Sends the chunk that ends the body.
    pub fn finish(&mut self) -> (r: Result<(), HttpClientError>)
        ensures
            final(self).is_reliable() == old(self).is_reliable(),
            old(self).is_reliable() ==> r is Ok && final(self).sent() == old(self).sent()
                + last_chunk_bytes() && final(self).body_written() == old(self).body_written(),
            r matches Err(e) ==> e is IoError,
    {
        let end: [u8; 5] = [0x30, 13, 10, 13, 10];
        let r = send_bytes(&mut self.stream, vstd::array::array_as_slice(&end));
        proof {
            assert(end@ =~= last_chunk_bytes());
        }
        r
    }

    /// Ends the body with its last chunk, which [`HttpRequest::finish`]
    /// sends, and goes on to the response, of which nothing has been read
    /// yet. Whether the connection hands out the response is for the
    /// connection to decide; if it does not, or does not take the last chunk,
    /// that is an I/O error.
    pub fn response(self) -> (r: Result<HttpResponse<ReadResponseStatus, W::Reader>, HttpClientError>)
        ensures
            r matches Ok(response) ==> response.reader().encoding() is None
                && !response.reader().exhausted() && response.reader().request_known()
                == self.is_reliable() && (self.is_reliable() ==> response.reader().request_sent()
                == self.sent() + last_chunk_bytes()),
            r matches Err(e) ==> e is IoError,
            goes_on::<W>(self.is_reliable(), self.sent(), last_chunk_bytes(), r),
    {
        let mut request = self;
        request.finish()?;
        respond(request.stream)
    }
}

} // verus!
