use btdt::cache::remote::canned::CannedConnector;
use btdt::cache::remote::{
    attenuation_parameters, attenuation_source, bearer_value, cache_id, close_result, decide,
    plan_connection, query_with_keys, read_hit, read_store_result,
    token_expiration, ConnectionPlan, Connector, HitScan, HttpClient, Operation, RemoteCache,
    RemoteCacheError, StatusDecision, UrlParts,
};
use btdt::cache::{Cache, CacheHit};
use btdt::error::{ErrorKind, IoError};
use btdt::server::{authorize, Authorization};
use btdt::util::clock::{Clock, Timestamp};
use btdt::util::http::error::HttpClientError;
use btdt::util::http::request::Connection;
use btdt::util::http::response::{read_line, HttpMessageReader, HttpResponse};
use btdt::util::http::{Header, HttpStatus};
use btdt::util::io::{write_all, Read, Write};
use std::cell::RefCell;
use std::rc::Rc;

const EMPTY_RESPONSE: &str = "HTTP/1.1 204 No Content\r\nContent-Length: 0\r\n\r\n";

struct FixedClock;

impl Clock for FixedClock {
    fn now(&self) -> Timestamp {
        Timestamp::new(1_700_000_000, 0).unwrap()
    }
}

struct SliceReader {
    data: Vec<u8>,
    position: usize,
}

impl Read for SliceReader {
    fn read(&mut self, max_len: usize) -> Result<Vec<u8>, IoError> {
        let n = max_len.min(self.data.len() - self.position);
        let bytes = self.data[self.position..self.position + n].to_vec();
        self.position += n;
        Ok(bytes)
    }
}

struct Exchange {
    request: Rc<RefCell<Vec<u8>>>,
    response: Vec<u8>,
}

impl Write for Exchange {
    fn write(&mut self, buf: &[u8]) -> Result<usize, IoError> {
        self.request.borrow_mut().extend_from_slice(buf);
        Ok(buf.len())
    }

    fn flush(&mut self) -> Result<(), IoError> {
        Ok(())
    }
}

impl Connection for Exchange {
    type Reader = SliceReader;

    fn into_reader(self) -> Result<SliceReader, IoError> {
        Ok(SliceReader {
            data: self.response,
            position: 0,
        })
    }
}

struct TestConnector {
    request: Rc<RefCell<Vec<u8>>>,
    response: String,
}

impl Connector for TestConnector {
    type Connection = Exchange;

    fn connect(&mut self, _plan: &ConnectionPlan) -> Result<Exchange, HttpClientError> {
        Ok(Exchange {
            request: self.request.clone(),
            response: self.response.as_bytes().to_vec(),
        })
    }
}

struct TestServer {
    request: Rc<RefCell<Vec<u8>>>,
    response: String,
}

impl TestServer {
    fn start(response: String) -> Self {
        TestServer {
            request: Rc::new(RefCell::new(Vec::new())),
            response,
        }
    }

    fn cache(&self, path: &str) -> RemoteCache<TestConnector, FixedClock> {
        let client = HttpClient::new(TestConnector {
            request: self.request.clone(),
            response: self.response.clone(),
        });
        RemoteCache::new(
            parse_url(&format!("http://127.0.0.1:8707/{}", path)).unwrap(),
            client,
            auth_token(),
            FixedClock,
        )
        .unwrap()
    }

    /// The request as the server reads it, with the value of the header
    /// that authorizes it blanked out.
    fn request(&self) -> String {
        let raw = self.request.borrow().clone();
        let mut source = SliceReader {
            data: raw,
            position: 0,
        };
        let request_line = read_line(&mut source).unwrap();
        let mut lines: Vec<String> = vec![request_line];
        let mut reader = HttpMessageReader::new_skip_status_line(source);
        while let Some(header) = reader.read_next_header().unwrap() {
            if header.key() == "Authorization" {
                assert!(header.value().starts_with("Bearer "));
                assert!(parse_token(header.value()["Bearer ".len()..].as_bytes()).is_some());
                lines.push("Authorization: <auth-header-value>\r\n".to_string());
            } else {
                lines.push(header.as_str().to_string());
            }
        }
        lines.push("\r\n".into());
        let mut body_reader = reader.read_body().unwrap();
        lines.push(String::from_utf8(read_to_end(&mut body_reader)).unwrap());
        lines.join("")
    }
}

fn parse_url(text: &str) -> Option<UrlParts> {
    let url = url::Url::parse(text).ok()?;
    Some(UrlParts {
        scheme: url.scheme().to_string(),
        username: url.username().to_string(),
        password: url.password().map(str::to_string),
        host: url.host_str().map(str::to_string),
        port: url.port_or_known_default(),
        path: url.path().to_string(),
        query: url.query().map(str::to_string),
    })
}

fn parse_token(text: &[u8]) -> Option<biscuit_auth::UnverifiedBiscuit> {
    biscuit_auth::UnverifiedBiscuit::from_base64(text).ok()
}

fn read_to_end<R: Read>(reader: &mut R) -> Vec<u8> {
    let mut data = Vec::new();
    loop {
        let bytes = reader.read(1024).unwrap();
        if bytes.is_empty() {
            return data;
        }
        data.extend(bytes);
    }
}

fn auth_token() -> biscuit_auth::UnverifiedBiscuit {
    let token = biscuit_auth::Biscuit::builder()
        .build(&biscuit_auth::KeyPair::new())
        .unwrap()
        .to_base64()
        .unwrap();
    parse_token(token.as_bytes()).unwrap()
}

#[test]
fn test_get_returns_none_for_empty_keys() {
    let test_server = TestServer::start(EMPTY_RESPONSE.into());
    let mut cache = test_server.cache("api/caches/cache-id");
    assert!(cache.get(&[]).unwrap().is_none());
    assert!(test_server.request.borrow().is_empty());
}

#[test]
fn test_get_returns_non_for_cache_miss() {
    let test_server = TestServer::start(EMPTY_RESPONSE.into());
    let mut cache = test_server.cache("api/caches/cache-id");
    assert!(cache.get(&["non-existent"]).unwrap().is_none());

    assert_eq!(
        test_server.request(),
        format!(
            "\
                GET /api/caches/cache-id?key=non-existent HTTP/1.1\r\n\
                Host: {}\r\n\
                Connection: close\r\n\
                User-Agent: btdt/{}\r\n\
                Authorization: <auth-header-value>\r\n\r\n\
            ",
            "127.0.0.1", "0.1.0"
        )
    );
}

#[test]
fn test_get_returns_data_for_cache_hit() {
    let test_server = TestServer::start(
        "HTTP/1.1 200 Ok\r\nBtdt-Cache-Key: existent\r\nContent-Length: 8\r\n\r\nHello!\r\n"
            .into(),
    );
    let mut cache = test_server.cache("api/caches/cache-id");
    let CacheHit {
        key,
        size_hint,
        mut reader,
    } = cache.get(&["non-existent", "existent"]).unwrap().unwrap();
    assert_eq!(key, "existent");
    assert_eq!(size_hint, Some(8));

    let buf = String::from_utf8(read_to_end(&mut reader)).unwrap();
    assert_eq!(buf, "Hello!\r\n");

    assert_eq!(
        test_server.request(),
        format!(
            "\
                GET /api/caches/cache-id?key=non-existent&key=existent HTTP/1.1\r\n\
                Host: {}\r\n\
                Connection: close\r\n\
                User-Agent: btdt/{}\r\n\
                Authorization: <auth-header-value>\r\n\r\n\
            ",
            "127.0.0.1", "0.1.0"
        )
    );
}

#[test]
fn test_get_returns_error_for_non_success_http_status() {
    let test_server =
        TestServer::start("HTTP/1.1 404 Not Found\r\nContent-Length: 0\r\n\r\n".into());
    let mut cache = test_server.cache("api/caches/cache-id");
    let error = cache.get(&["non-existent"]).err().unwrap().into_io_error();
    assert_eq!(error.kind, ErrorKind::Other);
    assert_eq!(
        error.message,
        RemoteCacheError::HttpError { status: 404 }.message()
    );
    assert_eq!(error.message, "http error: 404");
}

#[test]
fn test_set_sends_data_to_remote_cache() {
    let test_server = TestServer::start(EMPTY_RESPONSE.into());
    let mut cache = test_server.cache("api/caches/cache-id");
    let mut writer = cache.set(&["key1", "key2"]).unwrap();

    write_all(&mut writer, b"Test data").unwrap();
    cache.close(writer).unwrap();

    assert_eq!(
        test_server.request(),
        format!(
            "\
                PUT /api/caches/cache-id?key=key1&key=key2 HTTP/1.1\r\n\
                Host: {}\r\n\
                Connection: close\r\n\
                User-Agent: btdt/{}\r\n\
                Authorization: <auth-header-value>\r\n\
                Transfer-Encoding: chunked\r\n\
                \r\n\
                Test data",
            "127.0.0.1", "0.1.0"
        )
    );
}

#[test]
fn set_fails_if_the_server_refuses() {
    let test_server =
        TestServer::start("HTTP/1.1 403 Forbidden\r\nContent-Length: 0\r\n\r\n".into());
    let mut cache = test_server.cache("api/caches/cache-id");
    let mut writer = cache.set(&["key"]).unwrap();
    write_all(&mut writer, b"data").unwrap();
    let error = cache.close(writer).err().unwrap().into_io_error();
    assert_eq!(error.message, "http error: 403");
}

#[test]
fn hit_without_a_matching_key_header_is_invalid_data() {
    for response in [
        "HTTP/1.1 200 Ok\r\nContent-Length: 2\r\n\r\nab",
        "HTTP/1.1 200 Ok\r\nBtdt-Cache-Key: other\r\nContent-Length: 2\r\n\r\nab",
    ] {
        let test_server = TestServer::start(response.into());
        let mut cache = test_server.cache("api/caches/cache-id");
        let error = cache.get(&["key"]).err().unwrap();
        assert_eq!(error.io_error().kind(), ErrorKind::InvalidData);
    }
}

#[test]
fn hit_headers_are_read_without_regard_to_case_and_order() {
    let test_server = TestServer::start(
        "HTTP/1.1 200 Ok\r\nX-Other: 1\r\nCONTENT-LENGTH: 3\r\nbtdt-cache-key: nope\r\nBTDT-CACHE-KEY:  k2 \r\n\r\nabc"
            .into(),
    );
    let mut cache = test_server.cache("api/caches/cache-id");
    let mut hit = cache.get(&["k1", "k2"]).unwrap().unwrap();
    assert_eq!(hit.key, "k2");
    assert_eq!(hit.size_hint, Some(3));
    assert_eq!(read_to_end(&mut hit.reader), b"abc");
}

#[test]
fn keys_are_encoded_for_the_query() {
    assert_eq!(query_with_keys(None, &[]), None);
    assert_eq!(
        query_with_keys(None, &["a b", "c&d=e/f", "\u{e9}~*-._"]),
        Some("key=a+b&key=c%26d%3De%2Ff&key=%C3%A9%7E*-._".to_string())
    );
    assert_eq!(
        query_with_keys(Some("x=1"), &["k"]),
        Some("x=1&key=k".to_string())
    );
    assert_eq!(query_with_keys(Some(""), &["k"]), Some("key=k".to_string()));
    assert_eq!(query_with_keys(Some("x=1"), &[]), Some("x=1".to_string()));
    assert_eq!(
        query_with_keys(None, &["AZaz09\n\u{0}+%"]),
        Some("key=AZaz09%0A%00%2B%25".to_string())
    );
}

#[test]
fn cache_id_is_the_last_path_segment() {
    assert_eq!(cache_id("/api/caches/cache-id").unwrap(), "cache-id");
    assert_eq!(cache_id("/api/caches/").unwrap(), "");
    assert_eq!(cache_id("/").unwrap(), "");
    assert_eq!(cache_id("/x").unwrap(), "x");
    assert_eq!(cache_id("").unwrap_err(), RemoteCacheError::MissingCacheId);
    assert_eq!(
        cache_id("text/plain,Hello").unwrap_err(),
        RemoteCacheError::MissingCacheId
    );
    assert_eq!(
        RemoteCacheError::MissingCacheId.message(),
        "missing cache ID in URL"
    );
    let client = HttpClient::new(TestConnector {
        request: Rc::new(RefCell::new(Vec::new())),
        response: String::new(),
    });
    assert!(matches!(
        RemoteCache::new(
            parse_url("data:text/plain,Hello").unwrap(),
            client,
            auth_token(),
            FixedClock
        ),
        Err(RemoteCacheError::MissingCacheId)
    ));
}

#[test]
fn connection_is_planned_from_the_url() {
    assert_eq!(
        plan_connection(&parse_url("http://example.com/x").unwrap()).unwrap(),
        ConnectionPlan {
            host: "example.com".to_string(),
            port: 80,
            use_tls: false
        }
    );
    assert_eq!(
        plan_connection(&parse_url("https://example.com:8443/x").unwrap()).unwrap(),
        ConnectionPlan {
            host: "example.com".to_string(),
            port: 8443,
            use_tls: true
        }
    );
    assert!(matches!(
        plan_connection(&parse_url("ftp://example.com/x").unwrap()),
        Err(HttpClientError::InvalidScheme(scheme)) if scheme == "ftp"
    ));
    assert!(matches!(
        plan_connection(&parse_url("http://user@example.com/x").unwrap()),
        Err(HttpClientError::UnsupportedFeature(_))
    ));
    assert!(matches!(
        plan_connection(&parse_url("http://:pw@example.com/x").unwrap()),
        Err(HttpClientError::UnsupportedFeature(_))
    ));
    let mut without_host = parse_url("http://example.com/x").unwrap();
    without_host.host = None;
    assert!(matches!(
        plan_connection(&without_host),
        Err(HttpClientError::MissingHost)
    ));
}

#[test]
fn status_decides_between_miss_hit_and_error() {
    let status = |line: &str| HttpStatus::new(line.to_string()).unwrap();
    assert_eq!(decide(&status("HTTP/1.1 204 No Content")), StatusDecision::Miss);
    assert_eq!(decide(&status("HTTP/1.1 200 OK")), StatusDecision::Hit);
    assert_eq!(decide(&status("HTTP/1.1 206 Partial")), StatusDecision::Hit);
    assert_eq!(
        decide(&status("HTTP/1.1 304 Not Modified")),
        StatusDecision::Failed(RemoteCacheError::HttpError { status: 304 })
    );
    assert_eq!(
        decide(&status("HTTP/1.1 500 Oops")),
        StatusDecision::Failed(RemoteCacheError::HttpError { status: 500 })
    );
    assert!(close_result(&status("HTTP/1.1 204 No Content")).is_ok());
    assert!(close_result(&status("HTTP/1.1 200 OK")).is_ok());
    assert_eq!(
        close_result(&status("HTTP/1.1 401 Unauthorized"))
            .unwrap_err()
            .message,
        "http error: 401"
    );
}

#[test]
fn scan_takes_the_first_size_and_the_first_known_key() {
    let header = |line: &str| Header::new(line.to_string()).unwrap();
    let keys = ["a", "b", "a"];
    let mut scan = HitScan::new();
    assert!(!scan.is_complete());
    scan.observe(&header("Btdt-Cache-Key: c\r\n"), &keys);
    assert_eq!(scan.hit_key, None);
    scan.observe(&header("Content-Length: 12\r\n"), &keys);
    assert_eq!(scan.size_hint, Some(12));
    assert!(!scan.is_complete());
    scan.observe(&header("Btdt-Cache-Key: a\r\n"), &keys);
    assert_eq!(scan.hit_key, Some(0));
    assert!(scan.is_complete());
    scan.observe(&header("Btdt-Cache-Key: b\r\n"), &keys);
    scan.observe(&header("Content-Length: 99\r\n"), &keys);
    assert_eq!(
        scan,
        HitScan {
            size_hint: Some(12),
            hit_key: Some(0)
        }
    );
}

#[test]
fn operations_have_their_names() {
    assert_eq!(Operation::Get.as_str(), "get");
    assert_eq!(Operation::Put.as_str(), "put");
}

#[test]
fn token_is_good_for_five_minutes() {
    assert_eq!(
        token_expiration(&Timestamp::new(1_000, 999_999_999).unwrap()),
        1_300
    );
    assert_eq!(token_expiration(&Timestamp::new(0, 0).unwrap()), 300);
    assert_eq!(token_expiration(&Timestamp::new(-50, 0).unwrap()), 300);
}

fn response_of(text: &str) -> HttpResponse<btdt::util::http::response::ReadResponseStatus, SliceReader> {
    HttpResponse::new(HttpMessageReader::new(SliceReader {
        data: text.as_bytes().to_vec(),
        position: 0,
    }))
}

#[test]
fn response_to_a_lookup_is_read() {
    let keys = ["key-a", "key-b"];

    assert!(read_hit(response_of("HTTP/1.1 204 No Content\r\n\r\n"), &keys, "/p")
        .unwrap()
        .is_none());

    let mut hit = read_hit(
        response_of(
            "HTTP/1.1 200 OK\r\ncontent-length: 3\r\nContent-Length: 2\r\nBTDT-CACHE-KEY: other\r\nBtdt-Cache-Key: key-b\r\nBtdt-Cache-Key: key-a\r\n\r\nabcdef",
        ),
        &keys,
        "/p",
    )
    .unwrap()
    .unwrap();
    assert_eq!(hit.key, "key-b");
    assert_eq!(hit.size_hint, Some(3));
    assert_eq!(read_to_end(&mut hit.reader), b"ab");

    let mut hit = read_hit(
        response_of(
            "HTTP/1.1 200 OK\r\nBtdt-Cache-Key: key-a\r\nTransfer-Encoding: chunked\r\n\r\n3\r\nabc\r\n0\r\n\r\n",
        ),
        &keys,
        "/p",
    )
    .unwrap()
    .unwrap();
    assert_eq!(hit.key, "key-a");
    assert_eq!(hit.size_hint, None);
    assert_eq!(read_to_end(&mut hit.reader), b"abc");

    let error = read_hit(
        response_of("HTTP/1.1 200 OK\r\nContent-Length: 3\r\n\r\nabc"),
        &keys,
        "/p",
    )
    .err()
    .unwrap();
    assert_eq!(error.io_error().kind(), ErrorKind::InvalidData);
    assert_eq!(error.path().as_deref(), Some("/p"));

    let error = read_hit(response_of("HTTP/1.1 404 Not Found\r\n\r\n"), &keys, "/p").err()
    .unwrap();
    assert_eq!(error.io_error().kind(), ErrorKind::Other);
    assert_eq!(error.io_error().message, "http error: 404");
    assert!(error.path().is_none());

    let error = read_hit(response_of("HTTP/2 200 OK\r\n\r\n"), &keys, "/p").err()
    .unwrap();
    assert_eq!(error.io_error().kind(), ErrorKind::InvalidData);

    let error = read_hit(
        response_of("HTTP/1.1 200 OK\r\nBtdt-Cache-Key: key-a\r\nTransfer-Encoding: gzip\r\n\r\n"),
        &keys,
        "/p",
    )
    .err()
    .unwrap();
    assert_eq!(error.io_error().kind(), ErrorKind::Unsupported);
}

/// The bearer token of the request that was sent through `request`.
fn bearer_of(request: &Rc<RefCell<Vec<u8>>>) -> String {
    let mut source = SliceReader {
        data: request.borrow().clone(),
        position: 0,
    };
    read_line(&mut source).unwrap();
    let mut reader = HttpMessageReader::new_skip_status_line(source);
    while let Some(header) = reader.read_next_header().unwrap() {
        if header.key() == "Authorization" {
            return header.value()["Bearer ".len()..].to_string();
        }
    }
    panic!("the request carries no token");
}

fn cache_with_token<C: Clock>(
    key_pair: &biscuit_auth::KeyPair,
    request: &Rc<RefCell<Vec<u8>>>,
    clock: C,
) -> RemoteCache<TestConnector, C> {
    let token = biscuit_auth::Biscuit::builder()
        .build(key_pair)
        .unwrap()
        .to_base64()
        .unwrap();
    RemoteCache::new(
        parse_url("http://127.0.0.1:8707/api/caches/cache-id").unwrap(),
        HttpClient::new(TestConnector {
            request: request.clone(),
            response: EMPTY_RESPONSE.to_string(),
        }),
        parse_token(token.as_bytes()).unwrap(),
        clock,
    )
    .unwrap()
}

#[test]
fn token_of_a_request_is_restricted_to_operation_cache_and_time() {
    let key_pair = biscuit_auth::KeyPair::new();
    let public_key = key_pair.public();

    let request = Rc::new(RefCell::new(Vec::new()));
    let mut cache = cache_with_token(&key_pair, &request, btdt::util::clock::SystemClock);
    assert!(cache.get(&["key"]).unwrap().is_none());
    let bearer = bearer_of(&request);
    assert_eq!(
        authorize(Some(&bearer), &public_key, Operation::Get, "cache-id"),
        Authorization::Granted
    );
    assert_eq!(
        authorize(Some(&bearer), &public_key, Operation::Put, "cache-id"),
        Authorization::Denied
    );
    assert_eq!(
        authorize(Some(&bearer), &public_key, Operation::Get, "other-cache"),
        Authorization::Denied
    );
    assert_eq!(
        authorize(
            Some(&bearer),
            &biscuit_auth::KeyPair::new().public(),
            Operation::Get,
            "cache-id"
        ),
        Authorization::Invalid
    );

    let request = Rc::new(RefCell::new(Vec::new()));
    let mut cache = cache_with_token(&key_pair, &request, btdt::util::clock::SystemClock);
    let writer = cache.set(&["key"]).unwrap();
    cache.close(writer).unwrap();
    let bearer = bearer_of(&request);
    assert_eq!(
        authorize(Some(&bearer), &public_key, Operation::Put, "cache-id"),
        Authorization::Granted
    );
    assert_eq!(
        authorize(Some(&bearer), &public_key, Operation::Get, "cache-id"),
        Authorization::Denied
    );

    let request = Rc::new(RefCell::new(Vec::new()));
    let mut cache = cache_with_token(&key_pair, &request, FixedClock);
    assert!(cache.get(&["key"]).unwrap().is_none());
    let bearer = bearer_of(&request);
    assert_eq!(
        authorize(Some(&bearer), &public_key, Operation::Get, "cache-id"),
        Authorization::Denied
    );
}

#[test]
fn bearer_token_follows_its_scheme() {
    assert_eq!(
        bearer_value(Some("abc123".to_string())).unwrap(),
        "Bearer abc123"
    );
    assert_eq!(bearer_value(Some("".to_string())).unwrap(), "Bearer ");
    let error = bearer_value(None).unwrap_err();
    assert_eq!(error.into_io_error().kind(), ErrorKind::InvalidData);
}

#[test]
fn store_that_the_server_refuses_names_the_status() {
    let status = |line: &str| HttpStatus::new(line.to_string()).unwrap();
    let error = close_result(&status("HTTP/1.1 403 Forbidden")).unwrap_err();
    assert_eq!(error.kind(), ErrorKind::Other);
    assert_eq!(error.message, "http error: 403");
    assert!(close_result(&status("HTTP/1.1 204 No Content")).is_ok());
    assert_eq!(
        attenuation_source(),
        "check if operation({operation}); check if cache({cache}); check if time($time), $time < {expiration};"
    );
}

#[test]
fn response_to_a_store_is_read() {
    assert!(read_store_result(response_of("HTTP/1.1 204 No Content\r\n\r\n")).is_ok());
    assert!(read_store_result(response_of("HTTP/1.1 200 OK")).is_ok());
    let error = read_store_result(response_of("HTTP/1.1 500 Broken\r\n\r\n")).unwrap_err();
    assert_eq!(error.kind(), ErrorKind::Other);
    assert_eq!(error.message, "http error: 500");
    let error = read_store_result(response_of("nonsense\r\n")).unwrap_err();
    assert_eq!(error.kind(), ErrorKind::InvalidData);
    assert_eq!(
        attenuation_parameters(),
        ("operation", "cache", "expiration")
    );
}

#[test]
fn canned_connection_keeps_what_is_sent_and_answers() {
    let mut connector = CannedConnector::new(b"HTTP/1.1 204 No Content\r\n\r\n".to_vec());
    let plan = ConnectionPlan {
        host: "cache.example".to_string(),
        port: 80,
        use_tls: false,
    };
    let mut connection = connector.connect(&plan).unwrap();
    assert!(connection.sent().is_empty());
    write_all(&mut connection, b"abc").unwrap();
    assert_eq!(connection.write(b"de").unwrap(), 2);
    connection.flush().unwrap();
    assert_eq!(connection.sent(), b"abcde");
    let mut reader = connection.into_reader().unwrap();
    assert_eq!(reader.read(4).unwrap(), b"HTTP");
    assert_eq!(read_to_end(&mut reader), b"/1.1 204 No Content\r\n\r\n");
    assert!(reader.read(4).unwrap().is_empty());

    let mut cache = RemoteCache::new(
        parse_url("http://cache.example/api/caches/cache-id").unwrap(),
        HttpClient::new(CannedConnector::new(
            b"HTTP/1.1 200 OK\r\nBtdt-Cache-Key: k\r\nContent-Length: 3\r\n\r\nabc".to_vec(),
        )),
        auth_token(),
        FixedClock,
    )
    .unwrap();
    for _ in 0..2 {
        let mut hit = cache.get(&["j", "k"]).unwrap().unwrap();
        assert_eq!(hit.key, "k");
        assert_eq!(hit.size_hint, Some(3));
        assert_eq!(read_to_end(&mut hit.reader), b"abc");
    }
    let writer = cache.set(&["k"]).unwrap();
    cache.close(writer).unwrap();
}
