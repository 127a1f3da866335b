use btdt::cache::local::LocalCache;
use btdt::cache::remote::{
    ConnectionPlan, Connector, HttpClient, Operation, RemoteCache, UrlParts,
};
use btdt::cache::Cache;
use btdt::error::{ErrorKind, IoError};
use btdt::server::api::{answer_get, answer_put, finish_put, GetAnswer, PutAnswer};
use btdt::server::authorize;
use btdt::storage::in_memory::InMemoryStorage;
use btdt::util::clock::SystemClock;
use btdt::util::http::error::HttpClientError;
use btdt::util::http::request::Connection;
use btdt::util::http::response::{read_line, HttpMessageReader};
use btdt::util::io::{write_all, Read, Write};
use std::cell::RefCell;
use std::rc::Rc;

type ServerCache = LocalCache<InMemoryStorage, SystemClock, btdt::cache::blob_id::ThreadRng>;

/// A server with one cache, `cache-id`, that answers each request as soon
/// as it has been sent.
struct Server {
    cache: ServerCache,
    public_key: biscuit_auth::PublicKey,
}

struct Bytes {
    data: Vec<u8>,
    position: usize,
}

impl Read for Bytes {
    fn read(&mut self, max_len: usize) -> Result<Vec<u8>, IoError> {
        let n = max_len.min(self.data.len() - self.position).min(5);
        let bytes = self.data[self.position..self.position + n].to_vec();
        self.position += n;
        Ok(bytes)
    }
}

fn read_all<R: Read>(reader: &mut R) -> Vec<u8> {
    let mut data = Vec::new();
    loop {
        let bytes = reader.read(1024).unwrap();
        if bytes.is_empty() {
            return data;
        }
        data.extend(bytes);
    }
}

impl Server {
    fn answer(&mut self, request: Vec<u8>) -> Vec<u8> {
        let mut source = Bytes {
            data: request,
            position: 0,
        };
        let request_line = read_line(&mut source).unwrap();
        let mut parts = request_line.split(' ');
        let method = parts.next().unwrap().to_string();
        let target = parts.next().unwrap().to_string();
        let (path, query) = target.split_once('?').unwrap_or((target.as_str(), ""));
        let cache_id = path.rsplit('/').next().unwrap();
        let keys: Vec<String> = url::form_urlencoded::parse(query.as_bytes())
            .filter(|(name, _)| name == "key")
            .map(|(_, value)| value.into_owned())
            .collect();
        let keys: Vec<&str> = keys.iter().map(String::as_str).collect();

        let mut reader = HttpMessageReader::new_skip_status_line(source);
        let mut token = None;
        while let Some(header) = reader.read_next_header().unwrap() {
            if header.key() == "Authorization" {
                token = header.value().strip_prefix("Bearer ").map(str::to_string);
            }
        }
        let body = read_all(&mut reader.read_body().unwrap());

        let known = cache_id == "cache-id";
        if method == "GET" {
            let authorization =
                authorize(token.as_deref(), &self.public_key, Operation::Get, cache_id);
            let cache = if known { Some(&mut self.cache) } else { None };
            let answer = answer_get(authorization, cache, &keys);
            let code = answer.status();
            match answer {
                GetAnswer::CacheHit(mut hit) => {
                    let data = read_all(&mut hit.reader);
                    let mut response = format!(
                        "HTTP/1.1 {} OK\r\nBtdt-Cache-Key: {}\r\nContent-Length: {}\r\n\r\n",
                        code,
                        hit.key,
                        data.len()
                    )
                    .into_bytes();
                    response.extend(data);
                    response
                }
                _ => format!("HTTP/1.1 {} -\r\nContent-Length: 0\r\n\r\n", code).into_bytes(),
            }
        } else {
            let authorization =
                authorize(token.as_deref(), &self.public_key, Operation::Put, cache_id);
            let cache = if known { Some(&mut self.cache) } else { None };
            let answer = answer_put(authorization, cache, &keys);
            let code = match answer {
                PutAnswer::Writer(mut writer) => {
                    write_all(&mut writer, &body).unwrap();
                    finish_put(&mut self.cache, writer).0
                }
                other => other.status().unwrap(),
            };
            format!("HTTP/1.1 {} -\r\nContent-Length: 0\r\n\r\n", code).into_bytes()
        }
    }
}

struct Wire {
    server: Rc<RefCell<Server>>,
    request: Vec<u8>,
}

impl Write for Wire {
    fn write(&mut self, buf: &[u8]) -> Result<usize, IoError> {
        self.request.extend_from_slice(buf);
        Ok(buf.len())
    }

    fn flush(&mut self) -> Result<(), IoError> {
        Ok(())
    }
}

impl Connection for Wire {
    type Reader = Bytes;

    fn into_reader(self) -> Result<Bytes, IoError> {
        Ok(Bytes {
            data: self.server.borrow_mut().answer(self.request),
            position: 0,
        })
    }
}

struct Wires {
    server: Rc<RefCell<Server>>,
}

impl Connector for Wires {
    type Connection = Wire;

    fn connect(&mut self, plan: &ConnectionPlan) -> Result<Wire, HttpClientError> {
        assert_eq!(plan.host, "cache.example");
        assert_eq!(plan.port, 443);
        assert!(plan.use_tls);
        Ok(Wire {
            server: self.server.clone(),
            request: Vec::new(),
        })
    }
}

fn client(
    server: &Rc<RefCell<Server>>,
    key_pair: &biscuit_auth::KeyPair,
    cache_id: &str,
) -> RemoteCache<Wires, SystemClock> {
    let token = biscuit_auth::Biscuit::builder()
        .build(key_pair)
        .unwrap()
        .to_base64()
        .unwrap();
    RemoteCache::new(
        UrlParts {
            scheme: "https".to_string(),
            username: "".to_string(),
            password: None,
            host: Some("cache.example".to_string()),
            port: Some(443),
            path: format!("/api/caches/{}", cache_id),
            query: None,
        },
        HttpClient::new(Wires {
            server: server.clone(),
        }),
        biscuit_auth::UnverifiedBiscuit::from_base64(token.as_bytes()).unwrap(),
        SystemClock,
    )
    .unwrap()
}

fn server(key_pair: &biscuit_auth::KeyPair) -> Rc<RefCell<Server>> {
    Rc::new(RefCell::new(Server {
        cache: LocalCache::new(InMemoryStorage::new()),
        public_key: key_pair.public(),
    }))
}

#[test]
fn remote_cache_round_trip_through_the_api() {
    let key_pair = biscuit_auth::KeyPair::new();
    let server = server(&key_pair);
    let mut cache = client(&server, &key_pair, "cache-id");

    assert!(cache.get(&["key a", "key&b"]).unwrap().is_none());

    let data: Vec<u8> = (0..100_000u32).map(|i| (i % 251) as u8).collect();
    let mut writer = cache.set(&["key a", "key&b"]).unwrap();
    for part in data.chunks(7_001) {
        write_all(&mut writer, part).unwrap();
    }
    cache.close(writer).unwrap();

    for keys in [vec!["key a"], vec!["missing", "key&b"], vec!["key&b", "key a"]] {
        let mut hit = cache.get(&keys).unwrap().unwrap();
        assert_eq!(hit.key, if keys.len() == 1 { "key a" } else { "key&b" });
        assert_eq!(hit.size_hint, Some(100_000));
        assert_eq!(read_all(&mut hit.reader), data);
    }
    assert!(cache.get(&["key"]).unwrap().is_none());

    let mut writer = cache.set(&["key a"]).unwrap();
    write_all(&mut writer, b"").unwrap();
    write_all(&mut writer, b"new").unwrap();
    cache.close(writer).unwrap();
    assert_eq!(
        read_all(&mut cache.get(&["key a"]).unwrap().unwrap().reader),
        b"new"
    );
    assert_eq!(
        read_all(&mut cache.get(&["key&b"]).unwrap().unwrap().reader),
        data
    );
}

#[test]
fn remote_cache_is_refused_without_the_key_of_the_server() {
    let key_pair = biscuit_auth::KeyPair::new();
    let server = server(&key_pair);

    let mut stranger = client(&server, &biscuit_auth::KeyPair::new(), "cache-id");
    let error = stranger.get(&["key"]).err().unwrap();
    assert_eq!(error.io_error().kind(), ErrorKind::Other);
    assert_eq!(error.io_error().message, "http error: 401");
    let writer = stranger.set(&["key"]).unwrap();
    let error = stranger.close(writer).unwrap_err();
    assert_eq!(error.io_error().message, "http error: 401");

    let mut elsewhere = client(&server, &key_pair, "other-cache");
    let error = elsewhere.get(&["key"]).err().unwrap();
    assert_eq!(error.io_error().message, "http error: 404");

    let mut cache = client(&server, &key_pair, "cache-id");
    assert!(cache.get(&["key"]).unwrap().is_none());
}
