use btdt::cache::remote::{ConnectionPlan, Connector, HttpClient, UrlParts};
use btdt::error::{ErrorKind, IoError};
use btdt::util::http::error::HttpClientError;
use btdt::util::http::numbers::{decimal_of, hex_of, parse_number, parse_trimmed_number};
use btdt::util::http::request::Connection;
use btdt::util::http::response::{read_line, HttpMessageReader, MAX_LINE_LEN};
use btdt::util::http::{Header, HttpStatus};
use btdt::util::io::{write_all, Read, Write};
use std::cell::RefCell;
use std::rc::Rc;

fn parse_url(text: &str) -> Option<UrlParts> {
    let url = url::Url::parse(text).ok()?;
    Some(UrlParts {
        scheme: url.scheme().to_string(),
        username: url.username().to_string(),
        password: url.password().map(str::to_string),
        host: url.host_str().map(str::to_string),
        port: url.port_or_known_default(),
        path: url.path().to_string(),
        query: url.query().map(str::to_string),
    })
}

const EMPTY_RESPONSE: &str = "HTTP/1.1 204 No Content\r\nContent-Length: 0\r\n\r\n";

struct SliceReader {
    data: Vec<u8>,
    position: usize,
    step: usize,
}

impl SliceReader {
    fn new(data: &[u8]) -> Self {
        SliceReader {
            data: data.to_vec(),
            position: 0,
            step: usize::MAX,
        }
    }
}

impl Read for SliceReader {
    fn read(&mut self, max_len: usize) -> Result<Vec<u8>, IoError> {
        let n = max_len
            .min(self.step)
            .min(self.data.len() - self.position);
        let bytes = self.data[self.position..self.position + n].to_vec();
        self.position += n;
        Ok(bytes)
    }
}

struct Exchange {
    request: Rc<RefCell<Vec<u8>>>,
    response: Vec<u8>,
}

impl Write for Exchange {
    fn write(&mut self, buf: &[u8]) -> Result<usize, IoError> {
        self.request.borrow_mut().extend_from_slice(buf);
        Ok(buf.len())
    }

    fn flush(&mut self) -> Result<(), IoError> {
        Ok(())
    }
}

impl Connection for Exchange {
    type Reader = SliceReader;

    fn into_reader(self) -> Result<SliceReader, IoError> {
        Ok(SliceReader::new(&self.response))
    }
}

struct TestServer {
    request: Rc<RefCell<Vec<u8>>>,
    plan: Rc<RefCell<Option<ConnectionPlan>>>,
    response: String,
}

impl TestServer {
    fn start(response: String) -> Self {
        TestServer {
            request: Rc::new(RefCell::new(Vec::new())),
            plan: Rc::new(RefCell::new(None)),
            response,
        }
    }

    fn client(&self) -> HttpClient<TestConnector> {
        HttpClient::new(TestConnector {
            request: self.request.clone(),
            plan: self.plan.clone(),
            response: self.response.clone(),
        })
    }

    fn url(&self, path_and_query: &str) -> UrlParts {
        parse_url(&format!("http://127.0.0.1:8707{}", path_and_query)).unwrap()
    }

    /// The request as the server reads it: the request line, the headers
    /// and the body, which is decoded if it was sent in chunks.
    fn request(&self) -> String {
        let raw = self.request.borrow().clone();
        let mut source = SliceReader::new(&raw);
        let request_line = read_line(&mut source).unwrap();
        let mut lines: Vec<String> = vec![request_line];
        let mut reader = HttpMessageReader::new_skip_status_line(source);
        while let Some(header) = reader.read_next_header().unwrap() {
            lines.push(header.as_str().to_string());
        }
        lines.push("\r\n".into());
        let mut body_reader = reader.read_body().unwrap();
        lines.push(String::from_utf8(read_to_end(&mut body_reader)).unwrap());
        lines.join("")
    }
}

struct TestConnector {
    request: Rc<RefCell<Vec<u8>>>,
    plan: Rc<RefCell<Option<ConnectionPlan>>>,
    response: String,
}

impl Connector for TestConnector {
    type Connection = Exchange;

    fn connect(&mut self, plan: &ConnectionPlan) -> Result<Exchange, HttpClientError> {
        self.plan.replace(Some(plan.clone()));
        Ok(Exchange {
            request: self.request.clone(),
            response: self.response.as_bytes().to_vec(),
        })
    }
}

fn read_to_end<R: Read>(reader: &mut R) -> Vec<u8> {
    let mut data = Vec::new();
    loop {
        let bytes = reader.read(7).unwrap();
        if bytes.is_empty() {
            return data;
        }
        data.extend(bytes);
    }
}

#[test]
fn test_get_request_without_body() {
    let test_server = TestServer::start(EMPTY_RESPONSE.into());
    let url = test_server.url("/path?query=foo#fragment");
    let response = test_server
        .client()
        .get(&url)
        .unwrap()
        .no_body()
        .unwrap();

    assert_eq!(
        test_server.request(),
        format!(
            "GET /path?query=foo HTTP/1.1\r\n\
                Host: {}\r\n\
                Connection: close\r\n\
                User-Agent: btdt/{}\r\n\r\n",
            "127.0.0.1", "0.1.0"
        )
    );

    let (status, mut response) = response.read_status().unwrap();
    assert_eq!(
        status,
        HttpStatus::new("HTTP/1.1 204 No Content".to_string()).unwrap()
    );
    assert_eq!(
        response.read_next_header().unwrap(),
        Some(Header::new("Content-Length: 0\r\n".to_string()).unwrap())
    );
    assert_eq!(response.read_next_header().unwrap(), None);
    let buf = read_to_end(&mut response.read_body().unwrap());
    assert!(buf.is_empty());
    assert_eq!(
        *test_server.plan.borrow(),
        Some(ConnectionPlan {
            host: "127.0.0.1".to_string(),
            port: 8707,
            use_tls: false
        })
    );
}

#[test]
fn test_post_with_fixed_size_body() {
    let test_server = TestServer::start(EMPTY_RESPONSE.into());
    let url = test_server.url("/path?query=foo#fragment");
    let body = "{\"hello\": \"world\"}\r\n";
    let mut request = test_server
        .client()
        .post(&url)
        .unwrap()
        .body_with_size(body.len())
        .unwrap();
    write_all(&mut request, body.as_bytes()).unwrap();
    let response = request.response().unwrap();

    assert_eq!(
        test_server.request(),
        format!(
            "POST /path?query=foo HTTP/1.1\r\n\
                Host: {}\r\n\
                Connection: close\r\n\
                User-Agent: btdt/{}\r\n\
                Content-Length: {}\r\n\r\n\
                {}",
            "127.0.0.1",
            "0.1.0",
            body.len(),
            body
        )
    );

    let (status, mut response) = response.read_status().unwrap();
    assert_eq!(
        status,
        HttpStatus::new("HTTP/1.1 204 No Content".to_string()).unwrap()
    );
    assert_eq!(
        response.read_next_header().unwrap(),
        Some(Header::new("Content-Length: 0\r\n".to_string()).unwrap())
    );
    assert_eq!(response.read_next_header().unwrap(), None);
    let buf = read_to_end(&mut response.read_body().unwrap());
    assert!(buf.is_empty());
}

#[test]
fn test_post_with_chunked_body() {
    let test_server = TestServer::start(EMPTY_RESPONSE.into());
    let url = test_server.url("/path?query=foo#fragment");
    let body = "{\"hello\": \"world\"}\r\n";
    let mut request = test_server.client().post(&url).unwrap().body().unwrap();
    write_all(&mut request, &body.as_bytes()[..5]).unwrap();
    write_all(&mut request, &body.as_bytes()[5..]).unwrap();
    let response = request.response().unwrap();

    assert_eq!(
        test_server.request(),
        format!(
            "POST /path?query=foo HTTP/1.1\r\n\
                Host: {}\r\n\
                Connection: close\r\n\
                User-Agent: btdt/{}\r\n\
                Transfer-Encoding: chunked\r\n\r\n\
                {}",
            "127.0.0.1", "0.1.0", body
        )
    );
    assert!(String::from_utf8(test_server.request.borrow().clone())
        .unwrap()
        .ends_with("\r\n\r\n5\r\n{\"hel\r\nF\r\nlo\": \"world\"}\r\n\r\n0\r\n\r\n"));

    let (status, mut response) = response.read_status().unwrap();
    assert_eq!(
        status,
        HttpStatus::new("HTTP/1.1 204 No Content".to_string()).unwrap()
    );
    assert_eq!(
        response.read_next_header().unwrap(),
        Some(Header::new("Content-Length: 0\r\n".to_string()).unwrap())
    );
    assert_eq!(response.read_next_header().unwrap(), None);
    let buf = read_to_end(&mut response.read_body().unwrap());
    assert!(buf.is_empty());
}

#[test]
fn test_response_body_with_content_length() {
    let test_server = TestServer::start(
        "\
            HTTP/1.1 200 OK\r\n\
            Content-Length: 8\r\n\
            \r\n\
            Hello!\r\n"
            .into(),
    );
    let url = test_server.url("/path?query=foo#fragment");
    let response = test_server.client().get(&url).unwrap().no_body().unwrap();

    let (status, response) = response.read_status().unwrap();
    assert_eq!(
        status,
        HttpStatus::new("HTTP/1.1 200 OK".to_string()).unwrap()
    );
    let buf = read_to_end(&mut response.read_body().unwrap());
    assert_eq!(String::from_utf8(buf).unwrap(), "Hello!\r\n");
}

#[test]
fn test_response_body_with_chunked_transfer_encoding() {
    let test_server = TestServer::start(
        "\
            HTTP/1.1 200 OK\r\n\
            Transfer-Encoding: chunked\r\n\
            \r\n\
            a\r\nHello, wor\r\n\
            5\r\nld!\r\n\r\n\
            0\r\n\r\n"
            .into(),
    );
    let url = test_server.url("/path?query=foo#fragment");
    let response = test_server.client().get(&url).unwrap().no_body().unwrap();

    let (status, response) = response.read_status().unwrap();
    assert_eq!(
        status,
        HttpStatus::new("HTTP/1.1 200 OK".to_string()).unwrap()
    );
    let buf = read_to_end(&mut response.read_body().unwrap());
    assert_eq!(String::from_utf8(buf).unwrap(), "Hello, world!\r\n");
}

#[test]
fn status_line_is_taken_apart() {
    let status = HttpStatus::new("HTTP/1.1 404 Not Found  ".to_string()).unwrap();
    assert_eq!(status.as_str(), "HTTP/1.1 404 Not Found  ");
    assert_eq!(status.code(), "404");
    assert_eq!(status.code_u16(), 404);
    assert!(!status.is_success());
    assert_eq!(status.reason(), "Not Found");
    let status = HttpStatus::new("HTTP/1.1 204".to_string()).unwrap();
    assert_eq!(status.code_u16(), 204);
    assert!(status.is_success());
    assert_eq!(status.reason(), "");
    let status = HttpStatus::new("HTTP/1.1 299 ".to_string()).unwrap();
    assert!(status.is_success());
    assert_eq!(status.reason(), "");
    assert_eq!(
        HttpStatus::new("HTTP/1.1 007 caf\u{e9}".to_string())
            .unwrap()
            .code_u16(),
        7
    );
}

#[test]
fn malformed_status_line_is_invalid_data() {
    for line in [
        "",
        "HTTP/1.1",
        "HTTP/1.0 200 OK",
        "http/1.1 200 OK",
        "HTTP/1.1200 OK",
        "HTTP/1.1 20 OK",
        "HTTP/1.1 2000 OK",
        "HTTP/1.1 200OK",
        "HTTP/1.1 2x0 OK",
        "HTTP/1.1 \u{661}00 OK",
        "HTTP/1.1  200 OK",
    ] {
        let error = HttpStatus::new(line.to_string()).unwrap_err();
        assert!(
            matches!(&error, HttpClientError::IoError(e) if e.kind == ErrorKind::InvalidData),
            "{}",
            line
        );
        assert_eq!(error.into_io_error().kind, ErrorKind::InvalidData);
    }
}

#[test]
fn header_line_is_split_at_the_first_colon() {
    let header = Header::new("Content-Type:  text/plain; a:b \r\n".to_string()).unwrap();
    assert_eq!(header.key(), "Content-Type");
    assert_eq!(header.value(), "text/plain; a:b");
    let header = Header::new("X-Empty:   \r\n".to_string()).unwrap();
    assert_eq!(header.key(), "X-Empty");
    assert_eq!(header.value(), "");
    let header = Header::new(":".to_string()).unwrap();
    assert_eq!(header.key(), "");
    assert_eq!(header.value(), "");
    let header = Header::new("Key :value".to_string()).unwrap();
    assert_eq!(header.key(), "Key ");
    assert_eq!(header.value(), "value");
    assert_eq!(header.as_str(), "Key :value");
    let error = Header::new("no colon here\r\n".to_string()).unwrap_err();
    assert_eq!(error.into_io_error().kind, ErrorKind::InvalidData);
}

fn body_of(response: &str, step: usize) -> Result<Vec<u8>, IoError> {
    let mut source = SliceReader::new(response.as_bytes());
    source.step = step;
    let reader = HttpMessageReader::new_skip_status_line(source);
    let mut body = reader.read_body().map_err(|e| e.into_io_error())?;
    let mut data = Vec::new();
    loop {
        let bytes = body.read(step)?;
        if bytes.is_empty() {
            return Ok(data);
        }
        data.extend(bytes);
    }
}

#[test]
fn body_is_read_in_steps_of_any_length() {
    for step in [1, 2, 3, 5, 100] {
        assert_eq!(
            body_of("Content-Length: 5\r\n\r\nHello, world", step).unwrap(),
            b"Hello"
        );
        assert_eq!(
            body_of(
                "transfer-encoding: CHUNKED\r\n\r\n3\r\nabc\r\n 00B \r\ndefghijklmn\r\n0\r\n\r\nrest",
                step
            )
            .unwrap(),
            b"abcdefghijklmn"
        );
        assert_eq!(body_of("X: y\r\n\r\nignored", step).unwrap(), b"");
        assert_eq!(body_of("Content-Length: 0\r\n\r\nignored", step).unwrap(), b"");
    }
}

#[test]
fn body_with_a_bad_frame_is_refused() {
    assert_eq!(
        body_of("Transfer-Encoding: chunked\r\n\r\nxyz\r\nabc\r\n0\r\n\r\n", 4)
            .unwrap_err()
            .kind,
        ErrorKind::InvalidData
    );
    assert_eq!(
        body_of("Transfer-Encoding: chunked\r\n\r\n\r\n", 4)
            .unwrap_err()
            .kind,
        ErrorKind::InvalidData
    );
    assert_eq!(
        body_of("Transfer-Encoding: chunked\r\n\r\n3\r\nabc", 4)
            .unwrap_err()
            .kind,
        ErrorKind::InvalidData
    );
    assert_eq!(
        body_of("Transfer-Encoding: gzip\r\n\r\n", 4).unwrap_err().kind,
        ErrorKind::Unsupported
    );
    assert_eq!(
        body_of("Content-Length: many\r\n\r\n", 4).unwrap_err().kind,
        ErrorKind::InvalidData
    );
    assert_eq!(
        body_of("Content-Length: -1\r\n\r\n", 4).unwrap_err().kind,
        ErrorKind::InvalidData
    );
    assert_eq!(
        body_of("no colon\r\n\r\n", 4).unwrap_err().kind,
        ErrorKind::InvalidData
    );
}

#[test]
fn lines_end_with_a_line_feed_or_the_data() {
    let mut source = SliceReader::new(b"first\r\nsecond\nthird");
    assert_eq!(read_line(&mut source).unwrap(), "first\r\n");
    assert_eq!(read_line(&mut source).unwrap(), "second\n");
    assert_eq!(read_line(&mut source).unwrap(), "third");
    assert_eq!(read_line(&mut source).unwrap(), "");
    let mut source = SliceReader::new(&[b'a', 0xff, b'\n', b'b']);
    assert_eq!(
        read_line(&mut source).unwrap_err().into_io_error().kind,
        ErrorKind::InvalidData
    );
    assert_eq!(read_line(&mut source).unwrap(), "b");
    let mut long = vec![b'x'; 199_999];
    long.push(b'\n');
    long.extend_from_slice(b"next\n");
    let mut source = SliceReader::new(&long);
    assert_eq!(read_line(&mut source).unwrap().len(), 200_000);
    assert_eq!(read_line(&mut source).unwrap(), "next\n");
    assert_eq!(MAX_LINE_LEN, usize::MAX);
}

#[test]
fn header_of_any_length_is_read() {
    let value = "v".repeat(100_000);
    let mut head = String::new();
    for i in 0..5_000 {
        head.push_str(&format!("X-Filler-{}: {}\r\n", i, i));
    }
    let response = format!(
        "{}Long: {}\r\nContent-Length: 2\r\n\r\nabcdef",
        head, value
    );
    let mut reader = HttpMessageReader::new_skip_status_line(SliceReader::new(response.as_bytes()));
    for i in 0..5_000 {
        let header = reader.read_next_header().unwrap().unwrap();
        assert_eq!(header.key(), format!("X-Filler-{}", i));
    }
    let header = reader.read_next_header().unwrap().unwrap();
    assert_eq!(header.key(), "Long");
    assert_eq!(header.value(), value);
    let mut body = reader.read_body().unwrap();
    assert_eq!(read_to_end(&mut body), b"ab");

    let reader = HttpMessageReader::new_skip_status_line(SliceReader::new(response.as_bytes()));
    let mut body = reader.read_body().unwrap();
    assert_eq!(read_to_end(&mut body), b"ab");
}

#[test]
fn numbers_are_written_and_read() {
    assert_eq!(hex_of(0), b"0");
    assert_eq!(hex_of(10), b"A");
    assert_eq!(hex_of(255), b"FF");
    assert_eq!(hex_of(0x1234_ABCD), b"1234ABCD");
    assert_eq!(decimal_of(0), b"0");
    assert_eq!(decimal_of(8707), b"8707");
    assert_eq!(decimal_of(usize::MAX), usize::MAX.to_string().as_bytes());
    let chars = |s: &str| s.chars().collect::<Vec<char>>();
    assert_eq!(parse_trimmed_number(16, &chars(" \t1f\r\n")), Some(31));
    assert_eq!(parse_trimmed_number(16, &chars("+A0")), Some(160));
    assert_eq!(parse_trimmed_number(10, &chars("0012")), Some(12));
    assert_eq!(parse_trimmed_number(10, &chars("1f")), None);
    assert_eq!(parse_trimmed_number(10, &chars("")), None);
    assert_eq!(parse_trimmed_number(10, &chars("+")), None);
    assert_eq!(parse_trimmed_number(10, &chars("-1")), None);
    assert_eq!(parse_trimmed_number(10, &chars("1 2")), None);
    assert_eq!(
        parse_trimmed_number(10, &chars(&usize::MAX.to_string())),
        Some(usize::MAX)
    );
    assert_eq!(
        parse_trimmed_number(10, &chars(&format!("{}0", usize::MAX))),
        None
    );
    assert_eq!(
        parse_trimmed_number(16, &chars("10000000000000000")),
        None
    );
    assert_eq!(parse_number(10, &chars("ab123cd"), 2, 5), Some(123));
}

#[test]
fn errors_describe_themselves() {
    assert_eq!(
        HttpClientError::InvalidScheme("ftp".to_string()).message(),
        "unknown URL scheme: ftp"
    );
    assert_eq!(HttpClientError::MissingHost.message(), "missing host");
    assert_eq!(
        HttpClientError::unsupported("transfer encoding").message(),
        "unsupported feature: transfer encoding"
    );
    assert_eq!(
        HttpClientError::invalid_data("bad").message(),
        "I/O error: bad"
    );
    assert_eq!(
        HttpClientError::TlsError("handshake".to_string())
            .into_io_error()
            .kind,
        ErrorKind::Other
    );
    assert_eq!(
        HttpClientError::InvalidDnsName("x y".to_string())
            .into_io_error()
            .message,
        "invalid DNS name: x y"
    );
    assert_eq!(
        HttpClientError::from_io(IoError::new(ErrorKind::NotFound, "gone"))
            .into_io_error()
            .kind(),
        ErrorKind::NotFound
    );
}

#[test]
fn headers_end_with_an_empty_line() {
    let test_server = TestServer::start(EMPTY_RESPONSE.into());
    let url = test_server.url("/p");
    let mut request = test_server.client().get(&url).unwrap();
    request.header("X-One", "1").unwrap();
    let before = test_server.request.borrow().len();
    request.end_headers().unwrap();
    assert_eq!(&test_server.request.borrow()[before..], b"\r\n");
    assert!(test_server.request.borrow().ends_with(b"X-One: 1\r\n\r\n"));
}
