use btdt::cache::local::LocalCache;
use btdt::cache::remote::Operation;
use btdt::cache::{Cache, CacheHit};
use btdt::error::{ErrorKind, IoError, IoPathError, IoPathResult};
use btdt::server::api::{
    answer_get, answer_put, chunk_size, finish_put, GetAnswer, PutAnswer,
};
use btdt::server::config::{BtdtServerConfig, CacheConfig, CleanupConfig, LoadConfigError};
use btdt::server::{
    authorization_of, authorize, authorize_token, authorizer_facts, authorizer_parameters,
    expiration_fits, status_code, Authorization, CleanupConfigError, CleanupStep, CleanupTask,
    Options, OptionsBuilder, Served,
};
use btdt::storage::in_memory::file_node::{FileReader, FileWriter};
use btdt::storage::in_memory::InMemoryStorage;
use btdt::storage::write_file;
use btdt::util::clock::TimeDelta;
use btdt::util::humanbytes::ParserError;
use btdt::util::io::{write_all, Read};

fn token(key_pair: &biscuit_auth::KeyPair, code: &str) -> String {
    biscuit_auth::Biscuit::builder()
        .code(code)
        .unwrap()
        .build(key_pair)
        .unwrap()
        .to_base64()
        .unwrap()
}

fn is_ok(
    token: &str,
    key_pair: &biscuit_auth::KeyPair,
    operation: Operation,
    cache_id: &str,
) -> bool {
    authorize(Some(token), &key_pair.public(), operation, cache_id) == Authorization::Granted
}

#[test]
fn test_bearer_auth_all_operations_allowed_with_unattenuated_token() {
    let key_pair = biscuit_auth::KeyPair::new();
    let token = token(&key_pair, "");
    assert!(is_ok(&token, &key_pair, Operation::Get, "some-cache"));
    assert!(is_ok(&token, &key_pair, Operation::Put, "some-cache"));
}

#[test]
fn test_bearer_auth_allows_attenuating_put_operation() {
    let key_pair = biscuit_auth::KeyPair::new();
    let token = token(&key_pair, "check if operation(\"get\");");
    assert!(is_ok(&token, &key_pair, Operation::Get, "some-cache"));
    assert!(!is_ok(&token, &key_pair, Operation::Put, "some-cache"));
}

#[test]
fn test_bearer_auth_allows_attenuating_get_operation() {
    let key_pair = biscuit_auth::KeyPair::new();
    let token = token(&key_pair, "check if operation(\"put\");");
    assert!(is_ok(&token, &key_pair, Operation::Put, "some-cache"));
    assert!(!is_ok(&token, &key_pair, Operation::Get, "some-cache"));
}

#[test]
fn test_bearer_auth_allows_attenuating_cache_id() {
    let key_pair = biscuit_auth::KeyPair::new();
    let token = token(&key_pair, r#"check if cache("access-granted");"#);
    assert!(is_ok(&token, &key_pair, Operation::Get, "access-granted"));
    assert!(!is_ok(&token, &key_pair, Operation::Get, "access-denied"));
}

#[test]
fn test_bearer_auth_allows_time_limit_on_token() {
    let key_pair = biscuit_auth::KeyPair::new();

    let expired_token = token(
        &key_pair,
        r#"check if time($time), $time <= 1970-01-01T00:00:00Z;"#,
    );
    assert!(!is_ok(&expired_token, &key_pair, Operation::Get, "cache-id"));

    let fresh_token = token(
        &key_pair,
        r#"check if time($time), $time <= 9999-12-31T23:59:59Z;"#,
    );
    assert!(is_ok(&fresh_token, &key_pair, Operation::Get, "cache-id"));
}

#[test]
fn bearer_auth_tells_missing_invalid_and_denied_apart() {
    let key_pair = biscuit_auth::KeyPair::new();
    let other = biscuit_auth::KeyPair::new();
    assert_eq!(
        authorize(None, &key_pair.public(), Operation::Get, "c"),
        Authorization::Missing
    );
    assert_eq!(
        authorize(Some("garbage"), &key_pair.public(), Operation::Get, "c"),
        Authorization::Invalid
    );
    assert_eq!(
        authorize(
            Some(&token(&other, "")),
            &key_pair.public(),
            Operation::Get,
            "c"
        ),
        Authorization::Invalid
    );
    assert_eq!(
        authorize(
            Some(&token(&key_pair, r#"check if cache("x");"#)),
            &key_pair.public(),
            Operation::Get,
            "c"
        ),
        Authorization::Denied
    );
    assert_eq!(
        authorize(
            Some(&token(&key_pair, r#"check if cache("x\"y");"#)),
            &key_pair.public(),
            Operation::Get,
            "x\"y"
        ),
        Authorization::Granted
    );
}

#[test]
fn status_codes_of_the_api() {
    assert_eq!(status_code(Authorization::Missing, Served::CacheHit), 401);
    assert_eq!(status_code(Authorization::Invalid, Served::CacheHit), 401);
    assert_eq!(status_code(Authorization::Denied, Served::CacheHit), 403);
    assert_eq!(status_code(Authorization::Granted, Served::CacheHit), 200);
    assert_eq!(status_code(Authorization::Granted, Served::CacheMiss), 204);
    assert_eq!(status_code(Authorization::Granted, Served::Stored), 204);
    assert_eq!(
        status_code(Authorization::Granted, Served::CacheNotFound),
        404
    );
    assert_eq!(status_code(Authorization::Denied, Served::CacheNotFound), 403);
    assert_eq!(status_code(Authorization::Granted, Served::Failed), 500);
}

#[test]
fn options_are_built() {
    assert!(!Options::builder().build().enable_api_docs());
    assert!(!OptionsBuilder::new().build().enable_api_docs());
    assert!(!OptionsBuilder::default().build().enable_api_docs());
    assert!(Options::builder()
        .enable_api_docs(true)
        .build()
        .enable_api_docs());
    assert!(!Options::builder()
        .enable_api_docs(true)
        .enable_api_docs(false)
        .build()
        .enable_api_docs());
}

#[test]
fn test_configuration_defaults() {
    assert_eq!(
        BtdtServerConfig::default(),
        BtdtServerConfig {
            bind_addrs: vec!["0.0.0.0:8707".to_string()],
            enable_api_docs: true,
            tls_keystore: "".to_string(),
            tls_keystore_password: "".to_string(),
            auth_private_key: "".to_string(),
            cleanup: CleanupConfig {
                interval: "10min".to_string(),
                cache_expiration: "7days".to_string(),
                max_cache_size: "50GiB".to_string(),
            },
            caches: vec![],
        }
    );
    assert_ne!(
        CacheConfig::InMemory,
        CacheConfig::Filesystem {
            path: "/var/lib/btdt-server/cache".to_string()
        }
    );
    assert_eq!(
        LoadConfigError::ConfigError("missing field".to_string()).message(),
        "configuration error: missing field"
    );
}

#[test]
fn cleanup_task_reads_its_settings() {
    let task = CleanupTask::new(&CleanupConfig::default()).unwrap();
    assert_eq!(task.cleanup_interval, (600, 0));
    assert_eq!(task.cache_expiration, TimeDelta::days(7));
    assert_eq!(task.max_cache_size, 50 * 1024 * 1024 * 1024);
    let task = CleanupTask::new(&CleanupConfig {
        interval: "1h 30min 5ms".to_string(),
        cache_expiration: "2days 1s".to_string(),
        max_cache_size: "1G 1".to_string(),
    })
    .unwrap();
    assert_eq!(task.cleanup_interval, (5_400, 5_000_000));
    assert_eq!(task.cache_expiration, TimeDelta::seconds(172_801));
    assert_eq!(task.max_cache_size, 1_000_000_001);
}

#[test]
fn cleanup_task_refuses_bad_settings() {
    let config = |interval: &str, expiration: &str, size: &str| CleanupConfig {
        interval: interval.to_string(),
        cache_expiration: expiration.to_string(),
        max_cache_size: size.to_string(),
    };
    assert!(matches!(
        CleanupTask::new(&config("soon", "7days", "50GiB")),
        Err(CleanupConfigError::Interval)
    ));
    assert!(matches!(
        CleanupTask::new(&config("10min", "", "50GiB")),
        Err(CleanupConfigError::Expiration)
    ));
    assert!(matches!(
        CleanupTask::new(&config("10min", "584942417355years", "50GiB")),
        Err(CleanupConfigError::Expiration)
    ));
    assert!(matches!(
        CleanupTask::new(&config("10min", "7days", "50 parsecs")),
        Err(CleanupConfigError::Size(ParserError::InvalidUnitPrefix(_)))
    ));
}

#[test]
fn cleanup_task_sleeps_for_the_rest_of_the_interval() {
    let task = CleanupTask::new(&CleanupConfig {
        interval: "2s".to_string(),
        cache_expiration: "1day".to_string(),
        max_cache_size: "1".to_string(),
    })
    .unwrap();
    assert_eq!(task.park_nanos(0), Some(2_000_000_000));
    assert_eq!(task.park_nanos(500_000_000), Some(1_500_000_000));
    assert_eq!(task.park_nanos(2_000_000_000), Some(0));
    assert_eq!(task.park_nanos(2_000_000_001), None);
    assert_eq!(task.after_wake(true, 0), CleanupStep::Stop);
    assert_eq!(task.after_wake(true, 5_000_000_000), CleanupStep::Stop);
    assert_eq!(task.after_wake(false, 1_999_999_999), CleanupStep::Sleep);
    assert_eq!(task.after_wake(false, 2_000_000_000), CleanupStep::Clean);
}

struct FailingCache;

impl Cache for FailingCache {
    type Reader = FileReader;
    type Writer = FileWriter;

    fn get<'a>(&mut self, _keys: &[&'a str]) -> IoPathResult<Option<CacheHit<'a, FileReader>>> {
        Err(IoPathError::new(
            IoError::new(ErrorKind::Other, "the disk is gone"),
            "/meta",
        ))
    }

    fn set(&mut self, _keys: &[&str]) -> IoPathResult<FileWriter> {
        Err(IoPathError::new_no_path(IoError::new(
            ErrorKind::Other,
            "the disk is gone",
        )))
    }

    fn close(&mut self, _writer: FileWriter) -> IoPathResult<()> {
        Err(IoPathError::new_no_path(IoError::new(
            ErrorKind::Other,
            "the disk is gone",
        )))
    }
}

#[test]
fn api_refuses_before_it_looks_at_the_cache() {
    let mut cache = FailingCache;
    for (authorization, code) in [
        (Authorization::Missing, 401),
        (Authorization::Invalid, 401),
        (Authorization::Denied, 403),
    ] {
        let answer = answer_get(authorization, Some(&mut cache), &["key"]);
        assert!(matches!(answer, GetAnswer::Refused(a) if a == authorization));
        assert_eq!(answer.status(), code);
        let answer = answer_get::<FailingCache>(authorization, None, &["key"]);
        assert_eq!(answer.status(), code);
        let answer = answer_put(authorization, Some(&mut cache), &["key"]);
        assert!(matches!(answer, PutAnswer::Refused(a) if a == authorization));
        assert_eq!(answer.status(), Some(code));
    }
}

#[test]
fn api_answers_for_a_cache_that_is_not_there_or_fails() {
    let answer = answer_get::<FailingCache>(Authorization::Granted, None, &["key"]);
    assert!(matches!(answer, GetAnswer::CacheNotFound));
    assert_eq!(answer.status(), 404);
    let answer = answer_put::<FailingCache>(Authorization::Granted, None, &["key"]);
    assert!(matches!(answer, PutAnswer::CacheNotFound));
    assert_eq!(answer.status(), Some(404));

    let mut cache = FailingCache;
    let answer = answer_get(Authorization::Granted, Some(&mut cache), &["key"]);
    assert!(matches!(&answer, GetAnswer::Failed(e) if e.io_error().message == "the disk is gone"));
    assert_eq!(answer.status(), 500);
    let answer = answer_put(Authorization::Granted, Some(&mut cache), &["key"]);
    assert!(matches!(answer, PutAnswer::Failed(_)));
    assert_eq!(answer.status(), Some(500));
}

#[test]
fn api_stores_and_finds() {
    let mut cache = LocalCache::new(InMemoryStorage::new());
    let answer = answer_get(Authorization::Granted, Some(&mut cache), &["key-a", "key-b"]);
    assert!(matches!(answer, GetAnswer::CacheMiss));
    assert_eq!(answer.status(), 204);

    let answer = answer_put(Authorization::Granted, Some(&mut cache), &["key-b"]);
    assert_eq!(answer.status(), None);
    let mut writer = match answer {
        PutAnswer::Writer(writer) => writer,
        _ => panic!("no writer was opened"),
    };
    write_all(&mut writer, b"Hello, world!").unwrap();
    let (code, error) = finish_put(&mut cache, writer);
    assert_eq!(code, 204);
    assert!(error.is_none());

    let answer = answer_get(Authorization::Granted, Some(&mut cache), &["key-a", "key-b"]);
    assert_eq!(answer.status(), 200);
    match answer {
        GetAnswer::CacheHit(mut hit) => {
            assert_eq!(hit.key, "key-b");
            assert_eq!(hit.size_hint, Some(13));
            assert_eq!(hit.reader.read(100).unwrap(), b"Hello, world!");
        }
        _ => panic!("the key was not found"),
    }

    let mut broken = InMemoryStorage::new();
    write_file(&mut broken, "/blob", b"in the way").unwrap();
    let mut cache = LocalCache::new(broken);
    let answer = answer_put(Authorization::Granted, Some(&mut cache), &["key"]);
    assert!(matches!(answer, PutAnswer::Failed(_)));
}

#[test]
fn chunks_of_an_answer_are_sized_from_the_size_hint() {
    assert_eq!(chunk_size(None), 524_288);
    assert_eq!(chunk_size(Some(0)), 1_024);
    assert_eq!(chunk_size(Some(13)), 1_037);
    assert_eq!(chunk_size(Some(523_263)), 524_287);
    assert_eq!(chunk_size(Some(523_264)), 524_288);
    assert_eq!(chunk_size(Some(u64::MAX)), 524_288);
}

#[test]
fn authorization_follows_from_reading_and_checking_the_token() {
    assert_eq!(authorization_of(false, false), Authorization::Invalid);
    assert_eq!(authorization_of(false, true), Authorization::Invalid);
    assert_eq!(authorization_of(true, true), Authorization::Granted);
    assert_eq!(authorization_of(true, false), Authorization::Denied);
    assert_eq!(
        authorizer_facts(),
        "operation({operation}); cache({cache_id});"
    );

    assert_eq!(
        authorize_token(None, Operation::Get, "cache-id"),
        Authorization::Invalid
    );
    let key_pair = biscuit_auth::KeyPair::new();
    let read = |code: &str| {
        biscuit_auth::Biscuit::from_base64(token(&key_pair, code), key_pair.public()).ok()
    };
    assert_eq!(
        authorize_token(read(""), Operation::Put, "cache-id"),
        Authorization::Granted
    );
    assert_eq!(
        authorize_token(
            read("check if operation(\"get\");"),
            Operation::Put,
            "cache-id"
        ),
        Authorization::Denied
    );
    assert_eq!(
        authorize_token(
            read("check if cache(\"cache-id\");"),
            Operation::Put,
            "cache-id"
        ),
        Authorization::Granted
    );
    assert_eq!(
        authorize_token(
            read("check if cache(\"cache-id\");"),
            Operation::Put,
            "other"
        ),
        Authorization::Denied
    );
}

#[test]
fn expiration_is_no_longer_than_the_longest_span() {
    assert!(expiration_fits(0, 0));
    assert!(expiration_fits(9_223_372_036_854_774, 999_999_999));
    assert!(expiration_fits(9_223_372_036_854_775, 807_000_000));
    assert!(!expiration_fits(9_223_372_036_854_775, 807_000_001));
    assert!(!expiration_fits(9_223_372_036_854_776, 0));
    assert!(!expiration_fits(u64::MAX, 0));
    let config = |expiration: &str| CleanupConfig {
        interval: "10min".to_string(),
        cache_expiration: expiration.to_string(),
        max_cache_size: "1".to_string(),
    };
    assert!(CleanupTask::new(&config("9223372036854775s 807ms")).is_ok());
    assert!(matches!(
        CleanupTask::new(&config("9223372036854775s 808ms")),
        Err(CleanupConfigError::Expiration)
    ));
    assert_eq!(authorizer_parameters(), ("operation", "cache_id"));
}
