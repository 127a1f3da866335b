//! A remote cache that stores data via the HTTP API of a cache server.
//!
//! A lookup is a `GET` request to the base URL, whose last path segment is
//! the identifier of the cache, with one `key` parameter for each key. A
//! store is a `PUT` request to the same target, with the data as a chunked
//! body. Every request carries a bearer token that is restricted to the
//! operation, to the cache and to the next five minutes.

pub mod canned;

use crate::cache::{Cache, CacheHit};
use crate::error::{ErrorKind, IoError, IoPathError, IoPathResult};
use crate::util::clock::{Clock, Timestamp};
use crate::util::http::error::HttpClientError;
use crate::util::http::message::{header_key, header_value, Header, HttpStatus};
use crate::util::http::numbers::{parse_trimmed_number, trimmed_number};
use crate::util::http::request::{
    crlf, ends_with, header_bytes, last_chunk_bytes, request_head, AwaitingRequestBody,
    AwaitingRequestHeaders, ChunkedTransferEncoding, Connection, HttpRequest,
    NoBodyTransferEncoding, OptionTransferEncoding, State, TNone, TSome,
};
use crate::util::http::response::{
    after_line, header_step, headers_end, start_of_body, status_spec, BodyState, HeaderStep,
    HttpResponse, ReadResponseBody, ReadResponseStatus, TransferEncodingType, MAX_HEADERS,
};
use crate::util::io::{Read, Write};
use crate::util::text::{
    append_str, chars_eq_ignore_ascii_case, eq_ignore_ascii_case, str_chars, str_eq,
    string_from_chars, substring,
};
use biscuit_auth::UnverifiedBiscuit;
use vstd::prelude::*;
use vstd::string::StringSliceAdditionalSpecFns;

verus! {

/// A bearer token of the `biscuit_auth` crate whose signatures have not
/// been verified.
#[verifier::external_type_specification]
#[verifier::external_body]
pub struct ExUnverifiedBiscuit(biscuit_auth::UnverifiedBiscuit);

/// The parts of a URL that a request is made from.
#[derive(Debug, Clone, PartialEq, Eq)]
pub struct UrlParts {
    /// The scheme, in lower case.
    pub scheme: String,
    /// The user name; empty if there is none.
    pub username: String,
    /// The password, if there is one.
    pub password: Option<String>,
    /// The host, if there is one.
    pub host: Option<String>,
    /// The port, or the default port of the scheme, if either is known.
    pub port: Option<u16>,
    /// The path, percent-encoded.
    pub path: String,
    /// The query, percent-encoded, if there is one.
    pub query: Option<String>,
}

/// Whether a byte is written as it is in a query: a letter or a digit of
/// ASCII, or one of `*`, `-`, `.` and `_`.
pub open spec fn is_form_safe(byte: u8) -> bool {
    byte == 0x2A || byte == 0x2D || byte == 0x2E || byte == 0x5F || (0x30 <= byte <= 0x39) || (0x41
        <= byte <= 0x5A) || (0x61 <= byte <= 0x7A)
}

/// The hexadecimal digit for a value below 16, with letters in upper case.
pub open spec fn hex_upper(value: int) -> char {
    if value < 10 {
        (0x30 + value) as u8 as char
    } else {
        (0x41 + value - 10) as u8 as char
    }
}

/// What a byte is written as in a query: itself if it is safe, `+` for a
/// space, and else `%` and its two hexadecimal digits.
pub open spec fn form_encoded_byte(byte: u8) -> Seq<char> {
    if is_form_safe(byte) {
        seq![byte as char]
    } else if byte == 0x20 {
        seq!['+']
    } else {
        seq!['%', hex_upper(byte as int / 16), hex_upper(byte as int % 16)]
    }
}

/// What `text` is written as in a `application/x-www-form-urlencoded`
/// query: byte by byte.
pub open spec fn form_encoded(text: Seq<u8>) -> Seq<char>
    decreases text.len(),
{
    if text.len() == 0 {
        seq![]
    } else {
        form_encoded(text.drop_last()) + form_encoded_byte(text.last())
    }
}

/// Encodes `text` for a query with `byte_serialize` of the `url` crate,
/// which keeps the letters and digits of ASCII and `*`, `-`, `.` and `_`,
/// writes `+` for a space, and any other byte as `%` and its two hexadecimal
/// digits in upper case.
#[verifier::external_body]
fn form_encode(text: &str) -> (encoded: String)
    ensures
        encoded@ == form_encoded(text.spec_bytes()),
{
    url::form_urlencoded::byte_serialize(text.as_bytes()).collect()
}

/// Adds a block to a bearer token with `UnverifiedBiscuit::append` and
/// gives the text form of the result. The block is made by
/// `BlockBuilder::code_with_params` from `source`, in which the first two
/// names stand for the texts that are given with them and the third for the
/// Unix time that is given with it. The block is signed with a key that is
/// drawn at random. `None` if the crate refuses the source or the token.
#[verifier::external_body]
fn attenuate(
    token: &UnverifiedBiscuit,
    source: &str,
    first: (&str, &str),
    second: (&str, &str),
    time: (&str, u64),
) -> (bearer: Option<String>) {
    let mut params = std::collections::HashMap::new();
    params.insert(first.0.to_string(), biscuit_auth::builder::Term::Str(first.1.to_string()));
    params.insert(second.0.to_string(), biscuit_auth::builder::Term::Str(second.1.to_string()));
    params.insert(time.0.to_string(), biscuit_auth::builder::Term::Date(time.1));
    let block = biscuit_auth::builder::BlockBuilder::new()
        .code_with_params(source, params, std::collections::HashMap::new()).ok()?;
    token.append(block).ok()?.to_base64().ok()
}

/// An error that can occur when using the remote cache.
#[derive(Debug, Clone, Copy, PartialEq, Eq, Structural)]
pub enum RemoteCacheError {
    /// The provided URL does not contain a cache ID.
    MissingCacheId,
    /// An HTTP error occurred.
    HttpError {
        /// The HTTP status code.
        status: u16,
    },
}

impl RemoteCacheError {
    /// A description of the error; for a status, `http error: ` and the
    /// status in decimal digits.
    pub open spec fn describe(&self) -> Seq<char> {
        match self {
            RemoteCacheError::MissingCacheId => "missing cache ID in URL"@,
            RemoteCacheError::HttpError { status } => "http error: "@
                + crate::util::http::numbers::decimal_digits(*status as nat).map_values(
                |b: u8| b as char,
            ),
        }
    }

    /// A description of the error.
    pub fn message(&self) -> (text: String)
        ensures
            text@ == self.describe(),
    {
        match self {
            RemoteCacheError::MissingCacheId => "missing cache ID in URL".to_owned(),
            RemoteCacheError::HttpError { status } => {
                let mut chars = str_chars("http error: ");
                let digits = crate::util::http::numbers::decimal_of(*status as usize);
                let ghost start = chars@;
                let mut i: usize = 0;
                while i < digits.len()
                    invariant
                        i <= digits.len(),
                        chars@ == start + digits@.take(i as int).map_values(|b: u8| b as char),
                    decreases digits.len() - i,
                {
                    chars.push(digits[i] as char);
                    assert(digits@.take(i + 1).map_values(|b: u8| b as char) =~= digits@.take(
                        i as int,
                    ).map_values(|b: u8| b as char).push(digits[i as int] as char));
                    i += 1;
                }
                assert(digits@.take(digits.len() as int) =~= digits@);
                string_from_chars(chars.as_slice())
            },
        }
    }

    /// The error as an I/O error of the kind `Other`, with the description
    /// of the error as its message.
    pub fn into_io_error(self) -> (e: IoError)
        ensures
            e.kind == ErrorKind::Other,
            e.message@ == self.describe(),
    {
        IoError { kind: ErrorKind::Other, message: self.message() }
    }
}

/// What a request asks the server to do.
#[derive(Debug, Clone, Copy, PartialEq, Eq, Structural)]
pub enum Operation {
    /// To look keys up.
    Get,
    /// To store data.
    Put,
}

impl Operation {
    /// The name of the operation in bearer tokens.
    pub fn as_str(&self) -> (name: &'static str)
        ensures
            name@ == (match self {
                Operation::Get => "get"@,
                Operation::Put => "put"@,
            }),
    {
        match self {
            Operation::Get => "get",
            Operation::Put => "put",
        }
    }
}

/// The position after the last `/` of `path`.
pub open spec fn last_segment_start(path: Seq<char>) -> int
    decreases path.len(),
{
    if path.len() == 0 {
        0
    } else if path.last() == '/' {
        path.len() as int
    } else {
        last_segment_start(path.drop_last())
    }
}

/// The identifier of the cache that a base URL with the given path names:
/// its last path segment. A path that does not start with `/` names none.
pub open spec fn cache_id_of(path: Seq<char>) -> Option<Seq<char>> {
    if path.len() > 0 && path[0] == '/' {
        Some(path.skip(last_segment_start(path)))
    } else {
        None
    }
}

/// Finds the identifier of the cache that a base URL with the given path
/// names.
pub fn cache_id(path: &str) -> (r: Result<String, RemoteCacheError>)
    ensures
        match cache_id_of(path@) {
            Some(id) => r matches Ok(found) && found@ == id,
            None => r == Err::<String, RemoteCacheError>(RemoteCacheError::MissingCacheId),
        },
{
    let chars = str_chars(path);
    if chars.len() == 0 || chars[0] != '/' {
        return Err(RemoteCacheError::MissingCacheId);
    }
    let mut start: usize = chars.len();
    assert(chars@.take(start as int) =~= chars@);
    while start > 0 && chars[start - 1] != '/'
        invariant
            start <= chars.len(),
            last_segment_start(chars@) == last_segment_start(chars@.take(start as int)),
        decreases start,
    {
        assert(chars@.take(start as int).drop_last() =~= chars@.take(start - 1));
        start -= 1;
    }
    assert(last_segment_start(chars@) == start) by {
        if start > 0 {
            assert(chars@.take(start as int).last() == '/');
        }
    }
    Ok(substring(&chars, start, chars.len()))
}

/// The query of a request for the given keys: the query of the base URL, if
/// it has one, and one `key` parameter for each key, joined by `&`.
pub open spec fn query_for(base: Option<Seq<char>>, keys: Seq<Seq<char>>) -> Option<Seq<char>>
    decreases keys.len(),
{
    if keys.len() == 0 {
        base
    } else {
        let before = query_for(base, keys.drop_last());
        let pair = "key="@ + form_encoded(vstd::utf8::encode_utf8(keys.last()));
        match before {
            Some(q) => if q.len() == 0 {
                Some(pair)
            } else {
                Some(q + "&"@ + pair)
            },
            None => Some(pair),
        }
    }
}

/// The characters of an optional text.
pub open spec fn owned_text(text: Option<String>) -> Option<Seq<char>> {
    match text {
        Some(t) => Some(t@),
        None => None,
    }
}

/// Builds the query of a request for the given keys.
pub fn query_with_keys(base: Option<&str>, keys: &[&str]) -> (query: Option<String>)
    ensures
        owned_text(query) == query_for(
            crate::util::http::request::text_of(base),
            crate::cache::local::key_texts(keys@),
        ),
{
    let ghost texts = crate::cache::local::key_texts(keys@);
    let ghost start = crate::util::http::request::text_of(base);
    let mut chars: Vec<char> = Vec::new();
    let mut some = false;
    if let Some(q) = base {
        append_str(&mut chars, q);
        some = true;
    }
    let mut i: usize = 0;
    proof {
        assert(texts.take(0) =~= Seq::<Seq<char>>::empty());
    }
    while i < keys.len()
        invariant
            i <= keys.len(),
            texts == crate::cache::local::key_texts(keys@),
            !some ==> chars@.len() == 0,
            query_for(start, texts.take(i as int)) == (if some {
                Some(chars@)
            } else {
                None
            }),
        decreases keys.len() - i,
    {
        proof {
            assert(texts.take(i + 1).drop_last() =~= texts.take(i as int));
            assert(texts.take(i + 1).last() == keys[i as int]@);
        }
        let ghost before = chars@;
        let ghost had = some;
        if chars.len() > 0 {
            append_str(&mut chars, "&");
        }
        append_str(&mut chars, "key=");
        let encoded = form_encode(keys[i]);
        append_str(&mut chars, encoded.as_str());
        some = true;
        proof {
            let pair = "key="@ + form_encoded(vstd::utf8::encode_utf8(keys[i as int]@));
            if before.len() > 0 {
                assert(chars@ =~= before + "&"@ + pair);
            } else {
                assert(chars@ =~= pair);
            }
        }
        i += 1;
    }
    proof {
        assert(texts.take(keys.len() as int) =~= texts);
    }
    if some {
        Some(string_from_chars(chars.as_slice()))
    } else {
        None
    }
}

/// What the status of the response to a lookup means.
#[derive(Debug, Clone, Copy, PartialEq, Eq, Structural)]
pub enum StatusDecision {
    /// None of the keys was found.
    Miss,
    /// A key was found; the headers and the body follow.
    Hit,
    /// The server refused the request.
    Failed(RemoteCacheError),
}

/// Tells what the status of the response to a lookup means: a status that
/// is no success is an error, the status 204 is a miss, and any other
/// success is a hit.
pub fn decide(status: &HttpStatus) -> (decision: StatusDecision)
    ensures
        decision == decision_for(status.line()),
{
    if !status.is_success() {
        return StatusDecision::Failed(RemoteCacheError::HttpError { status: status.code_u16() });
    }
    let line = str_chars(status.as_str());
    if line[10] == '0' && line[11] == '4' {
        StatusDecision::Miss
    } else {
        StatusDecision::Hit
    }
}

/// What a status line means for a lookup.
pub open spec fn decision_for(line: Seq<char>) -> StatusDecision {
    if line[9] != '2' {
        StatusDecision::Failed(
            RemoteCacheError::HttpError {
                status: (crate::util::http::message::digit_value(line[9]) * 100
                    + crate::util::http::message::digit_value(line[10]) * 10
                    + crate::util::http::message::digit_value(line[11])) as u16,
            },
        )
    } else if line[10] == '0' && line[11] == '4' {
        StatusDecision::Miss
    } else {
        StatusDecision::Hit
    }
}

/// What the headers of the response to a lookup have told so far.
#[derive(Debug, Clone, Copy, PartialEq, Eq, Structural)]
pub struct HitScan {
    /// The size of the data, if a header told it.
    pub size_hint: Option<u64>,
    /// The position of the key that was found, if a header told it.
    pub hit_key: Option<usize>,
}

/// The position of the first of `keys` that is `value`.
pub open spec fn position_of(keys: Seq<Seq<char>>, value: Seq<char>) -> Option<usize>
    decreases keys.len(),
{
    if keys.len() == 0 {
        None
    } else {
        match position_of(keys.drop_last(), value) {
            Some(p) => Some(p),
            None => if keys.last() == value && keys.len() - 1 <= usize::MAX {
                Some((keys.len() - 1) as usize)
            } else {
                None
            },
        }
    }
}

/// What the headers tell after one more header: the first `Content-Length`
/// that is a number gives the size, and the first `Btdt-Cache-Key` that is
/// one of the keys gives the key.
pub open spec fn observed(scan: HitScan, line: Seq<char>, keys: Seq<Seq<char>>) -> HitScan {
    HitScan {
        size_hint: if scan.size_hint is None && eq_ignore_ascii_case(
            header_key(line),
            "content-length"@,
        ) {
            match trimmed_number(10, header_value(line)) {
                Some(n) => Some(n as u64),
                None => None,
            }
        } else {
            scan.size_hint
        },
        hit_key: if scan.hit_key is None && eq_ignore_ascii_case(
            header_key(line),
            "btdt-cache-key"@,
        ) {
            position_of(keys, header_value(line))
        } else {
            scan.hit_key
        },
    }
}

impl HitScan {
    /// A scan that has seen no header.
    pub fn new() -> (scan: Self)
        ensures
            scan.size_hint is None,
            scan.hit_key is None,
    {
        HitScan { size_hint: None, hit_key: None }
    }

    /// Whether both the size and the key are known.
    pub fn is_complete(&self) -> (complete: bool)
        ensures
            complete == (self.size_hint is Some && self.hit_key is Some),
    {
        self.size_hint.is_some() && self.hit_key.is_some()
    }

    /// Takes note of a header.
    pub fn observe(&mut self, header: &Header, keys: &[&str])
        ensures
            *final(self) == observed(
                *old(self),
                header.line(),
                crate::cache::local::key_texts(keys@),
            ),
    {
        let key = str_chars(header.key());
        let value = str_chars(header.value());
        let content_length = str_chars("content-length");
        let cache_key = str_chars("btdt-cache-key");
        if self.size_hint.is_none() && chars_eq_ignore_ascii_case(
            key.as_slice(),
            content_length.as_slice(),
        ) {
            self.size_hint = match parse_trimmed_number(10, &value) {
                Some(n) => Some(n as u64),
                None => None,
            };
        }
        if self.hit_key.is_none() && chars_eq_ignore_ascii_case(
            key.as_slice(),
            cache_key.as_slice(),
        ) {
            let ghost texts = crate::cache::local::key_texts(keys@);
            let mut found: Option<usize> = None;
            let mut i: usize = 0;
            assert(texts.take(0) =~= Seq::<Seq<char>>::empty());
            while i < keys.len() && found.is_none()
                invariant
                    i <= keys.len(),
                    texts == crate::cache::local::key_texts(keys@),
                    value@ == header_value(header.line()),
                    found == position_of(texts.take(i as int), value@),
                decreases keys.len() - i,
            {
                proof {
                    assert(texts.take(i + 1).drop_last() =~= texts.take(i as int));
                    assert(texts.take(i + 1).last() == keys[i as int]@);
                }
                let same = str_eq(keys[i], header.value());
                if same {
                    found = Some(i);
                }
                proof {
                    let longer = texts.take(i + 1);
                    assert(longer.len() == i + 1);
                    assert(position_of(longer.drop_last(), value@) is None);
                    assert(same == (longer.last() == value@));
                    assert(found == position_of(longer, value@));
                }
                i += 1;
            }
            proof {
                lemma_position_found(texts, value@, i as int);
            }
            self.hit_key = found;
        }
    }
}

/// A key that was found among the first keys is found among all of them,
/// at the same position.
proof fn lemma_position_found(keys: Seq<Seq<char>>, value: Seq<char>, n: int)
    requires
        0 <= n <= keys.len(),
        position_of(keys.take(n), value) is Some || n == keys.len(),
    ensures
        position_of(keys, value) == position_of(keys.take(n), value),
    decreases keys.len(),
{
    if n == keys.len() {
        assert(keys.take(n) =~= keys);
    } else {
        assert(keys.drop_last().take(n) =~= keys.take(n));
        lemma_position_found(keys.drop_last(), value, n);
    }
}

/// What the response to a lookup tells.
pub enum HitOutcome {
    /// None of the keys was found.
    Miss,
    /// The key at `index` was found; `body` is where the reading of the
    /// data starts.
    Hit { index: usize, size_hint: Option<u64>, body: BodyState },
    /// The lookup failed with an error of this kind.
    Failed(ErrorKind),
    /// The server refused the request with a status that is no success.
    Refused(RemoteCacheError),
}

/// What a response tells once the scan of its headers is over, with
/// `stream` left to be read: the headers that are left, if the end of the
/// headers has not been `reached`, are passed over. Without a header that
/// names one of the keys the response is not valid.
pub open spec fn hit_after_headers(
    stream: Seq<u8>,
    encoding: Option<TransferEncodingType>,
    reached: bool,
    scan: HitScan,
) -> HitOutcome {
    let end = if reached {
        Ok((encoding, stream))
    } else {
        headers_end(stream, encoding, MAX_HEADERS as nat)
    };
    match end {
        Err(kind) => HitOutcome::Failed(kind),
        Ok((encoding, rest)) => match scan.hit_key {
            Some(index) => HitOutcome::Hit {
                index,
                size_hint: scan.size_hint,
                body: start_of_body(encoding, rest),
            },
            None => HitOutcome::Failed(ErrorKind::InvalidData),
        },
    }
}

/// What a response tells whose headers start at `stream`, after the
/// headers before them told `scan`: at most `left` headers are looked at,
/// and none once both the size and the key are known.
pub open spec fn hit_in_headers(
    stream: Seq<u8>,
    encoding: Option<TransferEncodingType>,
    scan: HitScan,
    keys: Seq<Seq<char>>,
    left: nat,
) -> HitOutcome
    decreases left,
{
    if left == 0 || (scan.size_hint is Some && scan.hit_key is Some) {
        hit_after_headers(stream, encoding, false, scan)
    } else {
        match header_step(stream, encoding) {
            HeaderStep::Fail(kind) => HitOutcome::Failed(kind),
            HeaderStep::End => hit_after_headers(after_line(stream), encoding, true, scan),
            HeaderStep::Header { line, encoding } => hit_in_headers(
                after_line(stream),
                encoding,
                observed(scan, line, keys),
                keys,
                (left - 1) as nat,
            ),
        }
    }
}

/// What the response in `stream` tells about a lookup of `keys`.
pub open spec fn hit_in_response(stream: Seq<u8>, keys: Seq<Seq<char>>) -> HitOutcome {
    match status_spec(stream) {
        Err(kind) => HitOutcome::Failed(kind),
        Ok(line) => match decision_for(line) {
            StatusDecision::Failed(error) => HitOutcome::Refused(error),
            StatusDecision::Miss => HitOutcome::Miss,
            StatusDecision::Hit => hit_in_headers(
                after_line(stream),
                None,
                HitScan { size_hint: None, hit_key: None },
                keys,
                MAX_HEADERS as nat,
            ),
        },
    }
}

/// Whether the result of a lookup reports what the response told.
pub open spec fn reports_hit<'a, R: Read>(
    r: IoPathResult<Option<CacheHit<'a, HttpResponse<ReadResponseBody, R>>>>,
    keys: Seq<&'a str>,
    outcome: HitOutcome,
) -> bool {
    match outcome {
        HitOutcome::Miss => r matches Ok(None),
        HitOutcome::Failed(kind) => r matches Err(e) && e.kind() == kind,
        HitOutcome::Refused(error) => r matches Err(e) && e.kind() == ErrorKind::Other
            && e.error.message@ == error.describe() && e.path is None,
        HitOutcome::Hit { index, size_hint, body } => r matches Ok(Some(hit)) && index < keys.len()
            && hit.key@ == keys[index as int]@ && hit.size_hint == size_hint
            && hit.reader.reader().is_reliable() && hit.reader.reader().body_state() == body,
    }
}

/// Reads what the response to a lookup of `keys` tells: a miss, an error,
/// or the key that was found with the size of the data and the reader for
/// it. Errors of the exchange carry `path`. What is told is stated for a
/// response of which nothing has been read yet.
pub fn read_hit<'a, R: Read>(
    response: HttpResponse<ReadResponseStatus, R>,
    keys: &[&'a str],
    path: &str,
) -> (r: IoPathResult<Option<CacheHit<'a, HttpResponse<ReadResponseBody, R>>>>)
    ensures
        r matches Ok(Some(hit)) ==> exists|i: int|
            0 <= i < keys.len() && (#[trigger] keys[i])@ == hit.key@,
        r matches Ok(Some(hit)) ==> response.reader().same_request(hit.reader.reader()),
        response.reader().is_reliable() && response.reader().encoding() is None
            && !response.reader().exhausted() ==> reports_hit(
            r,
            keys@,
            hit_in_response(response.reader().stream(), crate::cache::local::key_texts(keys@)),
        ),
{
    let ghost reliable = response.reader().is_reliable() && response.reader().encoding() is None
        && !response.reader().exhausted();
    let ghost texts = crate::cache::local::key_texts(keys@);
    let ghost whole = hit_in_response(response.reader().stream(), texts);
    let (status, mut headers) = match response.read_status() {
        Ok(read) => read,
        Err(e) => {
            return Err(exchange_error(e, path));
        },
    };
    match decide(&status) {
        StatusDecision::Failed(error) => {
            return Err(IoPathError::new_no_path(error.into_io_error()));
        },
        StatusDecision::Miss => {
            return Ok(None);
        },
        StatusDecision::Hit => {},
    }
    let mut scan = HitScan::new();
    let mut left: usize = MAX_HEADERS;
    let mut reached = false;
    while left > 0 && !scan.is_complete() && !reached
        invariant
            reliable == (response.reader().is_reliable() && response.reader().encoding() is None
                && !response.reader().exhausted()),
            reliable ==> headers.reader().is_reliable(),
            response.reader().same_request(headers.reader()),
            texts == crate::cache::local::key_texts(keys@),
            whole == hit_in_response(response.reader().stream(), texts),
            scan.hit_key matches Some(index) ==> index < keys.len(),
            reliable ==> reached == headers.reader().exhausted(),
            reliable ==> whole == (if reached {
                hit_after_headers(
                    headers.reader().stream(),
                    headers.reader().encoding(),
                    true,
                    scan,
                )
            } else {
                hit_in_headers(
                    headers.reader().stream(),
                    headers.reader().encoding(),
                    scan,
                    texts,
                    left as nat,
                )
            }),
        decreases left + (if reached { 0int } else { 1int }),
    {
        match headers.read_next_header() {
            Ok(Some(header)) => {
                scan.observe(&header, keys);
                proof {
                    lemma_position_in_range(texts);
                }
                left -= 1;
            },
            Ok(None) => {
                reached = true;
            },
            Err(e) => {
                return Err(exchange_error(e, path));
            },
        }
    }
    let reader = match headers.read_body() {
        Ok(reader) => reader,
        Err(e) => {
            return Err(exchange_error(e, path));
        },
    };
    match scan.hit_key {
        Some(index) => Ok(Some(CacheHit { key: keys[index], size_hint: scan.size_hint, reader })),
        None => Err(
            IoPathError::new(
                IoError::new(ErrorKind::InvalidData, "missing Btdt-Cache-Key header in response"),
                path,
            ),
        ),
    }
}

/// How a connection to a server is to be made.
#[derive(Debug, Clone, PartialEq, Eq)]
pub struct ConnectionPlan {
    /// The host to connect to.
    pub host: String,
    /// The port to connect to.
    pub port: u16,
    /// Whether the connection is to be secured with TLS.
    pub use_tls: bool,
}

/// What stands in the way of a connection to the server of a URL, if
/// anything: a scheme that is neither `http` nor `https`, a user name or a
/// password, or a missing host.
pub open spec fn connection_error(url: UrlParts) -> Option<ErrorKind> {
    if url.scheme@ != "http"@ && url.scheme@ != "https"@ {
        Some(ErrorKind::InvalidInput)
    } else if url.username@.len() > 0 || url.password is Some {
        Some(ErrorKind::Unsupported)
    } else if url.host is None || url.port is None {
        Some(ErrorKind::InvalidInput)
    } else {
        None
    }
}

/// Whether `r` refuses a request to a URL that no connection can be made
/// for, with the kind of what stands in the way. Any result will do for a
/// URL that a connection can be made for.
pub open spec fn refuses_unusable<T>(url: UrlParts, r: IoPathResult<T>) -> bool {
    match connection_error(url) {
        Some(kind) => r matches Err(e) && e.kind() == kind,
        None => true,
    }
}

/// Tells how the connection to the server of a URL is to be made.
pub fn plan_connection(url: &UrlParts) -> (r: Result<ConnectionPlan, HttpClientError>)
    ensures
        match connection_error(*url) {
            Some(kind) => r matches Err(e) && e.kind() == kind,
            None => r matches Ok(plan) && plan.host@ == url.host->Some_0@ && plan.port
                == url.port->Some_0 && plan.use_tls == (url.scheme@ == "https"@),
        },
{
    proof {
        reveal_strlit("");
        reveal_strlit("http");
        reveal_strlit("https");
    }
    let use_tls = if str_eq(url.scheme.as_str(), "http") {
        false
    } else if str_eq(url.scheme.as_str(), "https") {
        true
    } else {
        return Err(HttpClientError::InvalidScheme(url.scheme.clone()));
    };
    assert(url.scheme@ == "http"@ || url.scheme@ == "https"@);
    assert("http"@ != "https"@) by {
        assert("http"@.len() != "https"@.len());
    }
    assert(use_tls == (url.scheme@ == "https"@));
    if !str_eq(url.username.as_str(), "") || url.password.is_some() {
        proof {
            if url.password is None {
                assert(url.username@ != ""@);
                assert(!(url.username@ =~= ""@));
                assert(url.username@.len() > 0);
            }
        }
        return Err(HttpClientError::unsupported("username/password in URL"));
    }
    assert(url.username@ =~= ""@);
    let host = match &url.host {
        Some(host) => host.clone(),
        None => {
            return Err(HttpClientError::MissingHost);
        },
    };
    let port = match url.port {
        Some(port) => port,
        None => {
            return Err(HttpClientError::MissingHost);
        },
    };
    Ok(ConnectionPlan { host, port, use_tls })
}

/// Whether a request with the given method to `url` has been started on a
/// connection over which `sent` has been sent: the URL is one that a
/// connection can be made for, and on a reliable connection what was sent
/// ends with the head of the request, whose target is the path and the
/// query of the URL and whose host is the host of the URL.
pub open spec fn starts_request(reliable: bool, sent: Seq<u8>, method: Seq<char>, url: UrlParts)
    -> bool {
    &&& connection_error(url) is None
    &&& reliable ==> ends_with(
        sent,
        request_head(method, url.path@, owned_text(url.query), url.host->Some_0@),
    )
}

/// Whether what was sent over a connection ends with a request of the
/// remote cache at `url` for `keys`: the head of a request with the given
/// method, whose target is the path of the URL and its query with one `key`
/// parameter for each key, then an `Authorization` header with a bearer
/// token, and then `tail`.
pub open spec fn authorized_request(
    method: Seq<char>,
    url: UrlParts,
    keys: Seq<Seq<char>>,
    sent: Seq<u8>,
    tail: Seq<u8>,
) -> bool {
    exists|value: Seq<char>|
        is_bearer(value) && ends_with(
            sent,
            request_head(
                method,
                url.path@,
                query_for(owned_text(url.query), keys),
                url.host->Some_0@,
            ) + #[trigger] header_bytes("Authorization"@, value) + tail,
        )
}

/// What follows the `Authorization` header of a lookup: the empty line that
/// ends the headers.
pub open spec fn lookup_tail() -> Seq<u8> {
    crlf()
}

/// What follows the `Authorization` header of a store, before the body:
/// the header that says that the body comes in chunks, and the empty line
/// that ends the headers.
pub open spec fn store_tail() -> Seq<u8> {
    header_bytes("Transfer-Encoding"@, "chunked"@) + vstd::utf8::encode_utf8("\r\n"@)
}

/// A request that was started for the URL with the keys, got its
/// `Authorization` header and then its tail is a request of the remote
/// cache.
proof fn lemma_authorized_request(
    method: Seq<char>,
    base: UrlParts,
    url: UrlParts,
    keys: Seq<Seq<char>>,
    started: Seq<u8>,
    authorized: Seq<u8>,
    sent: Seq<u8>,
    tail: Seq<u8>,
)
    requires
        url.path@ == base.path@,
        owned_text(url.host) == owned_text(base.host),
        owned_text(url.query) == query_for(owned_text(base.query), keys),
        starts_request(true, started, method, url),
        exists|value: Seq<char>|
            is_bearer(value) && authorized == started + #[trigger] header_bytes(
                "Authorization"@,
                value,
            ),
        sent == authorized + tail,
    ensures
        authorized_request(method, base, keys, sent, tail),
{
    let value = choose|value: Seq<char>|
        is_bearer(value) && authorized == started + #[trigger] header_bytes(
            "Authorization"@,
            value,
        );
    let head = request_head(method, url.path@, owned_text(url.query), url.host->Some_0@);
    let before = choose|before: Seq<u8>| started == #[trigger] (before + head);
    let whole = head + header_bytes("Authorization"@, value) + tail;
    assert(sent =~= before + whole);
    assert(ends_with(sent, whole));
    assert(url.host->Some_0@ == base.host->Some_0@);
}

/// Makes connections to servers.
pub trait Connector {
    /// The type of the connections.
    type Connection: Connection;

    /// Whether an attempt to make a connection as `plan` says may leave the
    /// connector as `after` and give `r`. A connector that says nothing of
    /// itself may give anything.
    open spec fn connects(
        &self,
        after: &Self,
        plan: ConnectionPlan,
        r: Result<Self::Connection, HttpClientError>,
    ) -> bool {
        true
    }

    /// Makes a connection as the plan says.
    fn connect(&mut self, plan: &ConnectionPlan) -> (r: Result<Self::Connection, HttpClientError>)
        ensures
            old(self).connects(final(self), *plan, r),
    ;
}

/// Whether `plan` is how the connection to the server of `url` is to be
/// made: to the host and the port of the URL, with TLS if its scheme is
/// `https`.
pub open spec fn is_plan_for(plan: ConnectionPlan, url: UrlParts) -> bool {
    plan.host@ == url.host->Some_0@ && plan.port == url.port->Some_0 && plan.use_tls == (url.scheme@
        == "https"@)
}

/// Whether `r` is the request with the given method to `url` that is
/// started on what an attempt to make the connection gave: the error of the
/// attempt, or a request on the connection that was made. Over a reliable
/// connection, the head of the request has been sent after what the
/// connection had taken before: its target is the path and the query of the
/// URL, and its host is the host of the URL.
pub open spec fn started<S: State, W: Connection>(
    made: Result<W, HttpClientError>,
    method: Seq<char>,
    url: UrlParts,
    r: Result<HttpRequest<S, W>, HttpClientError>,
) -> bool {
    match made {
        Err(e) => r matches Err(failed) && failed == e,
        Ok(connection) => (r matches Ok(request) ==> request.is_reliable()
            == connection.reliable()) && (connection.reliable() ==> (r matches Ok(request)
            && request.sent() == connection.written() + request_head(
            method,
            url.path@,
            owned_text(url.query),
            url.host->Some_0@,
        ))),
    }
}

/// Whether `r` is what starting a request with the given method to `url`
/// gives, with a connector that is `before` and becomes `after`: for a URL
/// that a connection can be made for, the connector was asked for the
/// connection that the URL needs, and the request was started on what it
/// gave.
pub open spec fn requested<S: State, K: Connector>(
    before: K,
    after: K,
    method: Seq<char>,
    url: UrlParts,
    r: Result<HttpRequest<S, K::Connection>, HttpClientError>,
) -> bool {
    connection_error(url) is None ==> exists|
        plan: ConnectionPlan,
        made: Result<K::Connection, HttpClientError>,
    |
        is_plan_for(plan, url) && #[trigger] before.connects(&after, plan, made) && started(
            made,
            method,
            url,
            r,
        )
}

/// A client for HTTP/1.1 that makes one connection for each request.
pub struct HttpClient<K: Connector> {
    connector: K,
}

impl<K: Connector> HttpClient<K> {
    /// What makes the connections of the client.
    pub closed spec fn connector(&self) -> K {
        self.connector
    }

    /// Creates a client that makes its connections with `connector`.
    pub fn new(connector: K) -> (client: Self)
        ensures
            client.connector() == connector,
    {
        HttpClient { connector }
    }

    /// Makes the connection that a request to a URL goes over.
    fn connect(&mut self, url: &UrlParts) -> (r: Result<K::Connection, HttpClientError>)
        ensures
            connection_error(*url) matches Some(kind) ==> (r matches Err(e) && e.kind() == kind),
            connection_error(*url) is None ==> exists|plan: ConnectionPlan|
                is_plan_for(plan, *url) && #[trigger] old(self).connector().connects(
                    &final(self).connector(),
                    plan,
                    r,
                ),
    {
        let plan = plan_connection(url)?;
        let r = self.connector.connect(&plan);
        proof {
            assert(is_plan_for(plan, *url) && old(self).connector().connects(
                &self.connector(),
                plan,
                r,
            ));
        }
        r
    }

    /// Starts a request with the given method to a URL: makes the
    /// connection that [`plan_connection`] tells, and sends the head of the
    /// request over it, with the path and the query of the URL as its target
    /// and the host of the URL as its host. A URL that no connection can be
    /// made for is refused; whether the connection is made is for the
    /// connector to decide.
    pub fn method(&mut self, method: &str, url: &UrlParts) -> (r: Result<
        HttpRequest<AwaitingRequestHeaders<TNone>, K::Connection>,
        HttpClientError,
    >)
        ensures
            connection_error(*url) matches Some(kind) ==> (r matches Err(e) && e.kind() == kind),
            r matches Ok(request) ==> starts_request(
                request.is_reliable(),
                request.sent(),
                method@,
                *url,
            ),
            requested(old(self).connector(), final(self).connector(), method@, *url, r),
    {
        let made = self.connect(url);
        let ghost seen = made;
        let stream = match made {
            Ok(stream) => stream,
            Err(e) => {
                return Err(e);
            },
        };
        let host = match &url.host {
            Some(host) => host.as_str(),
            None => {
                return Err(HttpClientError::MissingHost);
            },
        };
        let query = match &url.query {
            Some(q) => Some(q.as_str()),
            None => None,
        };
        let r = HttpRequest::<AwaitingRequestHeaders<TNone>, K::Connection>::method(
            stream,
            method,
            url.path.as_str(),
            query,
            host,
        );
        proof {
            assert(started(seen, method@, *url, r));
        }
        r
    }

    /// Starts a `GET` request to a URL; see [`HttpClient::method`].
    pub fn get(&mut self, url: &UrlParts) -> (r: Result<
        HttpRequest<AwaitingRequestHeaders<TSome<NoBodyTransferEncoding>>, K::Connection>,
        HttpClientError,
    >)
        ensures
            connection_error(*url) matches Some(kind) ==> (r matches Err(e) && e.kind() == kind),
            r matches Ok(request) ==> starts_request(
                request.is_reliable(),
                request.sent(),
                "GET"@,
                *url,
            ),
            requested(old(self).connector(), final(self).connector(), "GET"@, *url, r),
    {
        let made = self.connect(url);
        let ghost seen = made;
        let stream = match made {
            Ok(stream) => stream,
            Err(e) => {
                return Err(e);
            },
        };
        let host = match &url.host {
            Some(host) => host.as_str(),
            None => {
                return Err(HttpClientError::MissingHost);
            },
        };
        let query = match &url.query {
            Some(q) => Some(q.as_str()),
            None => None,
        };
        let r = HttpRequest::<
            AwaitingRequestHeaders<TSome<NoBodyTransferEncoding>>,
            K::Connection,
        >::get(stream, url.path.as_str(), query, host);
        proof {
            assert(started(seen, "GET"@, *url, r));
        }
        r
    }

    /// Starts a `POST` request to a URL; see [`HttpClient::method`].
    pub fn post(&mut self, url: &UrlParts) -> (r: Result<
        HttpRequest<AwaitingRequestHeaders<TNone>, K::Connection>,
        HttpClientError,
    >)
        ensures
            connection_error(*url) matches Some(kind) ==> (r matches Err(e) && e.kind() == kind),
            r matches Ok(request) ==> starts_request(
                request.is_reliable(),
                request.sent(),
                "POST"@,
                *url,
            ),
            requested(old(self).connector(), final(self).connector(), "POST"@, *url, r),
    {
        self.method("POST", url)
    }

    /// Starts a `PUT` request to a URL; see [`HttpClient::method`].
    pub fn put(&mut self, url: &UrlParts) -> (r: Result<
        HttpRequest<AwaitingRequestHeaders<TNone>, K::Connection>,
        HttpClientError,
    >)
        ensures
            connection_error(*url) matches Some(kind) ==> (r matches Err(e) && e.kind() == kind),
            r matches Ok(request) ==> starts_request(
                request.is_reliable(),
                request.sent(),
                "PUT"@,
                *url,
            ),
            requested(old(self).connector(), final(self).connector(), "PUT"@, *url, r),
    {
        self.method("PUT", url)
    }
}

/// The seconds for which a restricted bearer token is good.
pub const TOKEN_LIFETIME_SECS: u64 = 300;

/// The Unix time in seconds until which a bearer token that is restricted
/// at the time `now` is good: five minutes later. A time before 1970 counts
/// as 1970, and a time that is not five minutes before the end of the range
/// as that end.
pub fn token_expiration(now: &Timestamp) -> (expiration: u64)
    ensures
        expiration == expiration_at(now.secs()),
{
    let secs = now.timestamp();
    if secs < 0 {
        TOKEN_LIFETIME_SECS
    } else {
        (secs as u64) + TOKEN_LIFETIME_SECS
    }
}

/// The Unix time in seconds until which a bearer token that is restricted
/// at the Unix time `secs` is good.
pub open spec fn expiration_at(secs: i64) -> u64 {
    if secs < 0 {
        TOKEN_LIFETIME_SECS
    } else {
        (secs + TOKEN_LIFETIME_SECS) as u64
    }
}

/// A remote cache that stores data via the HTTP API of a cache server.
pub struct RemoteCache<K: Connector, C: Clock> {
    base_url: UrlParts,
    cache_id: String,
    client: HttpClient<K>,
    token: UnverifiedBiscuit,
    clock: C,
}

/// A cache writer writing to the remote cache.
pub struct RemoteWriter<W: Connection> {
    request: HttpRequest<AwaitingRequestBody<ChunkedTransferEncoding>, W>,
}

impl<W: Connection> Write for RemoteWriter<W> {
    closed spec fn written(&self) -> Seq<u8> {
        self.request.written()
    }

    open spec fn reliable(&self) -> bool {
        self.is_reliable()
    }

    closed spec fn target(&self) -> Seq<Seq<char>> {
        self.request.target()
    }

    closed spec fn flushed(&self) -> bool {
        self.request.flushed()
    }

    fn write(&mut self, buf: &[u8]) -> (r: Result<usize, IoError>) {
        self.request.write(buf)
    }

    fn flush(&mut self) -> (r: Result<(), IoError>) {
        self.request.flush()
    }
}

impl<W: Connection> RemoteWriter<W> {
    /// What has been sent over the connection: the head of the request,
    /// and the chunks of the body.
    pub closed spec fn sent(&self) -> Seq<u8> {
        self.request.sent()
    }

    /// Whether the connection takes all that is written to it.
    pub closed spec fn is_reliable(&self) -> bool {
        self.request.is_reliable()
    }

    /// Whether `r` is how the closing of this writer may end: either the
    /// last chunk could not be sent, on a connection that is not reliable, or
    /// the connection, with the last chunk sent over it, handed out its
    /// error, which is the error of the closing, or the reader of a response,
    /// for which the store ends as [`store_result`] says.
    pub open spec fn ends(self, r: Result<(), IoError>) -> bool {
        ||| (!self.is_reliable() && r is Err)
        ||| exists|connection: W, handed: Result<W::Reader, IoError>| #[trigger]
            connection.hands_out(handed) && connection.reliable() == self.is_reliable() && (
            self.is_reliable() ==> connection.written() == self.sent() + last_chunk_bytes()) && (
            match handed {
                Ok(reader) => reader.reliable() ==> store_result(reader.remaining(), r),
                Err(e) => r == Err::<(), IoError>(e),
            })
    }

    /// Ends the body of the request, as [`HttpRequest::finish`] does, and
    /// reads the status of the response; how the store ends for that
    /// response is told by [`read_store_result`]. Whether the response
    /// comes, and with which status, is for the connection and the server to
    /// decide.
    pub fn close(self) -> (r: Result<(), IoError>)
        ensures
            self.ends(r),
    {
        let read = self.request.response();
        let ghost seen = read;
        let response = match read {
            Ok(response) => response,
            Err(e) => {
                return Err(e.into_io_error());
            },
        };
        read_store_result(response)
    }
}

/// Whether `r` is how a store ends for the response in `stream`: well if
/// the status of the response is a success, with an error of the kind
/// `Other` whose message names the status if it is not, and with an error of
/// the kind of the failure if the status line cannot be read.
pub open spec fn store_result(stream: Seq<u8>, r: Result<(), IoError>) -> bool {
    match status_spec(stream) {
        Err(kind) => r matches Err(e) && e.kind == kind,
        Ok(line) => match decision_for(line) {
            StatusDecision::Failed(error) => r matches Err(e) && e.kind == ErrorKind::Other
                && e.message@ == error.describe(),
            _ => r is Ok,
        },
    }
}

/// Reads how a store ends from the response to it: well if the status of
/// the response is a success, with an error of the kind `Other` whose
/// message names the status if it is not, and with the error of the reading
/// if the status line cannot be read. What is told is stated for a response
/// that is read from a reliable reader.
pub fn read_store_result<R: Read>(response: HttpResponse<ReadResponseStatus, R>) -> (r: Result<
    (),
    IoError,
>)
    ensures
        response.reader().is_reliable() ==> store_result(response.reader().stream(), r),
{
    let (status, _) = match response.read_status() {
        Ok(read) => read,
        Err(e) => {
            return Err(e.into_io_error());
        },
    };
    close_result(&status)
}

/// Tells how a store ends with the given status of the response: well if
/// the status is a success, and else with an error of the kind `Other`
/// whose message names the status.
pub fn close_result(status: &HttpStatus) -> (r: Result<(), IoError>)
    ensures
        r is Ok <==> status.line()[9] == '2',
        match decision_for(status.line()) {
            StatusDecision::Failed(error) => r matches Err(e) && e.kind == ErrorKind::Other
                && e.message@ == error.describe(),
            _ => r is Ok,
        },
{
    match decide(status) {
        StatusDecision::Failed(error) => Err(error.into_io_error()),
        _ => Ok(()),
    }
}

impl<K: Connector, C: Clock> RemoteCache<K, C> {
    /// Creates a new remote cache with the given base URL, HTTP client,
    /// authentication token and clock. The last path segment of the URL is
    /// the identifier of the cache.
    pub fn new(base_url: UrlParts, client: HttpClient<K>, token: UnverifiedBiscuit, clock: C) -> (r:
        Result<Self, RemoteCacheError>)
        ensures
            match cache_id_of(base_url.path@) {
                Some(id) => r matches Ok(cache) && cache.cache_id() == id && cache.base_url()
                    == base_url,
                None => r matches Err(e) && e == RemoteCacheError::MissingCacheId,
            },
    {
        let cache_id = cache_id(base_url.path.as_str())?;
        Ok(RemoteCache { base_url, cache_id, client, token, clock })
    }

    /// The identifier of the cache.
    pub closed spec fn cache_id(&self) -> Seq<char> {
        self.cache_id@
    }

    /// The URL of the cache.
    pub closed spec fn base_url(&self) -> UrlParts {
        self.base_url
    }

    /// The URL of a request for the given keys: the base URL with one
    /// `key` parameter for each key added to its query.
    fn url_for(&self, keys: &[&str]) -> (url: UrlParts)
        ensures
            url.scheme@ == self.base_url.scheme@,
            url.username@ == self.base_url.username@,
            owned_text(url.password) == owned_text(self.base_url.password),
            owned_text(url.host) == owned_text(self.base_url.host),
            url.port == self.base_url.port,
            url.path@ == self.base_url.path@,
            owned_text(url.query) == query_for(
                owned_text(self.base_url.query),
                crate::cache::local::key_texts(keys@),
            ),
    {
        let query = match &self.base_url.query {
            Some(q) => query_with_keys(Some(q.as_str()), keys),
            None => query_with_keys(None, keys),
        };
        UrlParts {
            scheme: self.base_url.scheme.clone(),
            username: self.base_url.username.clone(),
            password: self.base_url.password.clone(),
            host: self.base_url.host.clone(),
            port: self.base_url.port,
            path: self.base_url.path.clone(),
            query,
        }
    }

    /// The value of the header that authorizes a request: the bearer token,
    /// restricted to the operation, to this cache and to the next five
    /// minutes. The text of the restricted token differs from call to call;
    /// a token that cannot be restricted is invalid data.
    fn authorization(&self, operation: Operation) -> (r: Result<String, HttpClientError>)
        ensures
            match r {
                Ok(value) => is_bearer(value@),
                Err(e) => e.kind() == ErrorKind::InvalidData,
            },
    {
        let now = self.clock.now();
        let expiration = token_expiration(&now);
        let names = attenuation_parameters();
        let bearer = attenuate(
            &self.token,
            attenuation_source(),
            (names.0, operation.as_str()),
            (names.1, self.cache_id.as_str()),
            (names.2, expiration),
        );
        bearer_value(bearer)
    }

    /// Adds the header that authorizes a request: an `Authorization` header
    /// with a bearer token. Where the token cannot be restricted, nothing is
    /// sent.
    fn add_auth_header<T: OptionTransferEncoding>(
        &self,
        request: &mut HttpRequest<AwaitingRequestHeaders<T>, K::Connection>,
        operation: Operation,
    ) -> (r: Result<(), HttpClientError>)
        ensures
            final(request).is_reliable() == old(request).is_reliable(),
            old(request).is_reliable() ==> (match r {
                Ok(()) => exists|value: Seq<char>|
                    is_bearer(value) && final(request).sent() == old(request).sent()
                        + #[trigger] header_bytes("Authorization"@, value),
                Err(e) => e.kind() == ErrorKind::InvalidData && final(request).sent() == old(
                    request,
                ).sent(),
            }),
    {
        let value = match self.authorization(operation) {
            Ok(value) => value,
            Err(e) => {
                return Err(e);
            },
        };
        let r = request.header("Authorization", value.as_str());
        proof {
            if old(request).is_reliable() {
                assert(is_bearer(value@) && request.sent() == old(request).sent() + header_bytes(
                    "Authorization"@,
                    value@,
                ));
            }
        }
        r
    }
}

/// The checks that restrict a bearer token, in the language of the
/// `biscuit_auth` crate: to an operation, to a cache, and to the time before
/// an expiration. `{operation}`, `{cache}` and `{expiration}` stand for the
/// name of the operation, the identifier of the cache and the time of the
/// expiration.
pub open spec fn attenuation_text() -> Seq<char> {
    "check if operation({operation}); check if cache({cache}); check if time($time), $time < {expiration};"@
}

/// The checks that restrict a bearer token; see [`attenuation_text`].
pub fn attenuation_source() -> (source: &'static str)
    ensures
        source@ == attenuation_text(),
{
    "check if operation({operation}); check if cache({cache}); check if time($time), $time < {expiration};"
}

/// The names that stand for the operation, for the cache and for the time
/// of the expiration in the checks of [`attenuation_source`].
pub fn attenuation_parameters() -> (names: (&'static str, &'static str, &'static str))
    ensures
        names.0@ == "operation"@,
        names.1@ == "cache"@,
        names.2@ == "expiration"@,
{
    ("operation", "cache", "expiration")
}

/// Whether `value` is the value of a header that carries a bearer token: it
/// starts with `Bearer `, and the token follows.
pub open spec fn is_bearer(value: Seq<char>) -> bool {
    value.len() >= "Bearer "@.len() && value.take("Bearer "@.len() as int) == "Bearer "@
}

/// The value of the header that authorizes a request, for the text of the
/// restricted token: the text after `Bearer `. Without such a text, because
/// the token could not be restricted, there is no value.
pub fn bearer_value(bearer: Option<String>) -> (r: Result<String, HttpClientError>)
    ensures
        match bearer {
            Some(text) => r matches Ok(value) && value@ == "Bearer "@ + text@ && is_bearer(value@),
            None => r matches Err(e) && e.kind() == ErrorKind::InvalidData,
        },
{
    match bearer {
        Some(bearer) => {
            let mut chars = str_chars("Bearer ");
            append_str(&mut chars, bearer.as_str());
            proof {
                assert(chars@.take("Bearer "@.len() as int) =~= "Bearer "@);
            }
            Ok(string_from_chars(chars.as_slice()))
        },
        None => Err(HttpClientError::invalid_data("authorization token cannot be restricted")),
    }
}

/// The error of an exchange with a server as an error of a cache.
fn exchange_error(e: HttpClientError, path: &str) -> (r: IoPathError)
    ensures
        r.kind() == e.kind(),
        r.has_path(path@),
{
    IoPathError::new(e.into_io_error(), path)
}

impl<K: Connector, C: Clock> Cache for RemoteCache<K, C> {
    type Reader = HttpResponse<ReadResponseBody, <K::Connection as Connection>::Reader>;

    type Writer = RemoteWriter<K::Connection>;

    open spec fn inv(&self) -> bool {
        true
    }

    /// A lookup leaves the URL and the identifier of the cache as they
    /// were. Without keys nothing is asked and nothing found. A URL that no
    /// connection can be made for is refused. A hit answers a `GET` request
    /// for the keys that carries a bearer token. Anything else is decided by
    /// the connection and the server.
    open spec fn gets<'a>(
        &self,
        after: &Self,
        keys: Seq<&'a str>,
        r: IoPathResult<Option<CacheHit<'a, Self::Reader>>>,
    ) -> bool {
        &&& after.base_url() == self.base_url()
        &&& after.cache_id() == self.cache_id()
        &&& (keys.len() == 0 ==> r matches Ok(None))
        &&& (keys.len() > 0 ==> refuses_unusable(self.base_url(), r))
        &&& (r matches Ok(Some(hit)) ==> (hit.reader.reader().request_known()
            ==> authorized_request(
            "GET"@,
            self.base_url(),
            crate::cache::local::key_texts(keys),
            hit.reader.reader().request_sent(),
            lookup_tail(),
        )))
    }

    /// Opening a writer leaves the URL and the identifier of the cache as
    /// they were. A URL that no connection can be made for is refused. A
    /// writer has sent the head of a `PUT` request for the keys that carries
    /// a bearer token and says that the body comes in chunks, and nothing of
    /// the body. Anything else is decided by the connection.
    open spec fn sets(&self, after: &Self, keys: Seq<&str>, r: IoPathResult<Self::Writer>) -> bool {
        &&& after.base_url() == self.base_url()
        &&& after.cache_id() == self.cache_id()
        &&& refuses_unusable(self.base_url(), r)
        &&& (r matches Ok(writer) ==> (writer.is_reliable() ==> authorized_request(
            "PUT"@,
            self.base_url(),
            crate::cache::local::key_texts(keys),
            writer.sent(),
            store_tail(),
        ) && writer.written() == Seq::<u8>::empty()))
    }

    /// Closing a writer leaves the cache as it was. The closing ends as
    /// the closing of the writer ends; an error comes without a path.
    open spec fn closes(&self, after: &Self, writer: Self::Writer, r: IoPathResult<()>) -> bool {
        &&& *after == *self
        &&& (r matches Err(e) ==> e.path is None)
        &&& exists|ended: Result<(), IoError>| #[trigger]
            writer.ends(ended) && (match ended {
                Ok(()) => r is Ok,
                Err(e) => r matches Err(failed) && failed.error == e,
            })
    }

    /// Looks the keys up on the server; see [`read_hit`] for what is made
    /// of the response.
    fn get<'a>(&mut self, keys: &[&'a str]) -> (r: IoPathResult<Option<CacheHit<'a, Self::Reader>>>) {
        if keys.len() == 0 {
            return Ok(None);
        }
        let url = self.url_for(keys);
        let path = url.path.clone();
        let mut request = match self.client.get(&url) {
            Ok(request) => request,
            Err(e) => {
                return Err(exchange_error(e, path.as_str()));
            },
        };
        let ghost started = request.sent();
        match self.add_auth_header(&mut request, Operation::Get) {
            Ok(()) => {},
            Err(e) => {
                return Err(exchange_error(e, path.as_str()));
            },
        }
        let ghost authorized = request.sent();
        let ghost known = request.is_reliable();
        let response = match request.no_body() {
            Ok(response) => response,
            Err(e) => {
                return Err(exchange_error(e, path.as_str()));
            },
        };
        proof {
            if known {
                lemma_authorized_request(
                    "GET"@,
                    self.base_url(),
                    url,
                    crate::cache::local::key_texts(keys@),
                    started,
                    authorized,
                    response.reader().request_sent(),
                    lookup_tail(),
                );
            }
        }
        read_hit(response, keys, path.as_str())
    }

    /// Opens a writer that sends the data to the server.
    fn set(&mut self, keys: &[&str]) -> (r: IoPathResult<Self::Writer>) {
        let url = self.url_for(keys);
        let path = url.path.clone();
        let mut request = match self.client.put(&url) {
            Ok(request) => request,
            Err(e) => {
                return Err(exchange_error(e, path.as_str()));
            },
        };
        let ghost started = request.sent();
        match self.add_auth_header(&mut request, Operation::Put) {
            Ok(()) => {},
            Err(e) => {
                return Err(exchange_error(e, path.as_str()));
            },
        }
        let ghost authorized = request.sent();
        let ghost known = request.is_reliable();
        match request.body() {
            Ok(request) => {
                proof {
                    if known {
                        assert(request.sent() =~= authorized + store_tail());
                        lemma_authorized_request(
                            "PUT"@,
                            self.base_url(),
                            url,
                            crate::cache::local::key_texts(keys@),
                            started,
                            authorized,
                            request.sent(),
                            store_tail(),
                        );
                    }
                }
                Ok(RemoteWriter { request })
            },
            Err(e) => Err(exchange_error(e, path.as_str())),
        }
    }

    /// Ends the store; see [`RemoteWriter::close`] and [`close_result`].
    fn close(&mut self, writer: Self::Writer) -> (r: IoPathResult<()>) {
        let ended = writer.close();
        let ghost seen = ended;
        let r = match ended {
            Ok(()) => Ok(()),
            Err(e) => Err(IoPathError::new_no_path(e)),
        };
        proof {
            assert(writer.ends(seen));
        }
        r
    }
}

/// A position that is found for a value lies within the keys.
proof fn lemma_position_in_range(keys: Seq<Seq<char>>)
    ensures
        forall|value: Seq<char>|
            (#[trigger] position_of(keys, value)) matches Some(index) ==> index < keys.len(),
    decreases keys.len(),
{
    if keys.len() > 0 {
        lemma_position_in_range(keys.drop_last());
        assert forall|value: Seq<char>| (#[trigger] position_of(keys, value)) is Some implies
            position_of(keys, value)->Some_0 < keys.len() by {
            match position_of(keys.drop_last(), value) {
                Some(p) => {
                    assert(p < keys.drop_last().len());
                },
                None => {},
            }
        }
    }
}

} // verus!
