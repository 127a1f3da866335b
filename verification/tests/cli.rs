use btdt::cache::local::LocalCache;
use btdt::cache::{Cache, CacheHit};
use btdt::cli::{
    is_private, is_remote, keys, restore_exit_code, EXIT_FALLBACK_HIT, EXIT_MISS, EXIT_PRIMARY_HIT,
};
use btdt::error::IoError;
use btdt::pipeline::Pipeline;
use btdt::storage::in_memory::InMemoryStorage;
use btdt::util::close::{Close, SelfClosing};
use btdt::util::io::{write_all, Read};

#[test]
fn empty_keys_are_dropped() {
    let given = vec![
        "cache-key-1".to_string(),
        "".to_string(),
        "cache-key-2".to_string(),
        "".to_string(),
    ];
    assert_eq!(keys(&given), vec!["cache-key-1", "cache-key-2"]);
    assert_eq!(keys(&vec!["".to_string()]), Vec::<&str>::new());
    assert_eq!(keys(&vec![]), Vec::<&str>::new());
    assert_eq!(keys(&vec![" ".to_string()]), vec![" "]);
}

#[test]
fn restore_exits_with_the_code_for_what_was_restored() {
    assert_eq!(EXIT_PRIMARY_HIT, 0);
    assert_eq!(EXIT_FALLBACK_HIT, 3);
    assert_eq!(EXIT_MISS, 4);
    assert_eq!(restore_exit_code(Some("a"), Some("a"), false), 0);
    assert_eq!(restore_exit_code(Some("b"), Some("a"), false), 3);
    assert_eq!(restore_exit_code(Some("b"), Some("a"), true), 0);
    assert_eq!(restore_exit_code(Some("b"), None, false), 3);
    assert_eq!(restore_exit_code(None, Some("a"), false), 4);
    assert_eq!(restore_exit_code(None, Some("a"), true), 4);
    // An empty first key is dropped from the keys but is still the
    // primary key.
    assert_eq!(restore_exit_code(Some("a"), Some(""), false), 3);
}

#[test]
fn remote_caches_are_told_by_their_scheme() {
    assert!(is_remote("http://localhost:8707/api/caches/x"));
    assert!(is_remote("https://example.com"));
    assert!(is_remote("http://"));
    assert!(!is_remote("HTTP://example.com"));
    assert!(!is_remote("/var/cache/http://x"));
    assert!(!is_remote("http:/x"));
    assert!(!is_remote("ftp://example.com"));
    assert!(!is_remote(""));
}

#[test]
fn private_files_are_for_their_owner_alone() {
    assert!(is_private(0o600));
    assert!(is_private(0o100400));
    assert!(is_private(0o700));
    assert!(!is_private(0o640));
    assert!(!is_private(0o604));
    assert!(!is_private(0o100644));
    assert!(!is_private(0o601));
}

fn read_all<R: Read>(reader: &mut R) -> Vec<u8> {
    let mut data = Vec::new();
    loop {
        let bytes = reader.read(3).unwrap();
        if bytes.is_empty() {
            return data;
        }
        data.extend(bytes);
    }
}

#[test]
fn restore_first_matched_key() {
    let mut pipeline = Pipeline::new(LocalCache::new(InMemoryStorage::new()));
    let mut writer = pipeline.open_store(&["cache-key-0"]).unwrap();
    write_all(&mut writer, b"lorem ipsum\n").unwrap();
    pipeline.finish_store(writer).unwrap();

    let given = vec!["non-existent".to_string(), "cache-key-0".to_string()];
    let CacheHit {
        key, mut reader, ..
    } = pipeline.open_restore(&keys(&given)).unwrap().unwrap();
    assert_eq!(key, "cache-key-0");
    assert_eq!(read_all(&mut reader), b"lorem ipsum\n");
    assert_eq!(
        restore_exit_code(Some(key), given.first().map(String::as_str), false),
        3
    );
}

#[test]
fn restore_miss() {
    let mut pipeline = Pipeline::new(LocalCache::new(InMemoryStorage::new()));
    let mut writer = pipeline.open_store(&["cache-key-0"]).unwrap();
    write_all(&mut writer, b"lorem ipsum\n").unwrap();
    pipeline.finish_store(writer).unwrap();

    let given = vec!["missing".to_string()];
    let restored = pipeline.open_restore(&keys(&given)).unwrap();
    assert!(restored.is_none());
    assert_eq!(restore_exit_code(None, Some("missing"), false), 4);
}

#[test]
fn test_restore_returns_restored_cache_key() {
    let mut pipeline = Pipeline::new(LocalCache::new(InMemoryStorage::new()));
    for key in ["cache-key-0", "cache-key-1"] {
        let writer = pipeline.open_store(&[key]).unwrap();
        pipeline.finish_store(writer).unwrap();
    }
    assert!(pipeline.open_restore(&["non-existent"]).unwrap().is_none());
    assert_eq!(
        pipeline
            .open_restore(&["non-existent", "cache-key-1", "cache-key-0"])
            .unwrap()
            .map(|hit| hit.key),
        Some("cache-key-1")
    );
    let mut cache = pipeline.into_cache();
    assert!(cache.get(&["cache-key-0"]).unwrap().is_some());
}

#[test]
fn self_closing_closes_without_error() {
    let wrapper = SelfClosing::new(42);
    assert_eq!(wrapper.inner, 42);
    assert_eq!(SelfClosing::new("x").into_inner(), "x");
    let closed: Result<(), IoError> = SelfClosing::new(42).close();
    closed.unwrap();
}
