use btdt::cache::blob_id::{BlobId, BlobIdFactory, RngBytes, ThreadRng};
use btdt::cache::local::{blob_path, meta_path, CacheWriter, LocalCache};
use btdt::cache::meta::{Meta, META_MAX_SIZE};
use btdt::cache::{Cache, CacheHit};
use btdt::error::{ErrorKind, IoPathResult};
use btdt::storage::in_memory::file_node::FileReader;
use btdt::storage::in_memory::InMemoryStorage;
use btdt::storage::{write_file, Storage};
use btdt::util::clock::{Clock, SystemClock, TimeDelta, Timestamp};
use btdt::util::io::{write_all, Read};
use std::cell::Cell;
use std::rc::Rc;

#[derive(Debug, Clone)]
struct ControlledClock {
    now: Rc<Cell<Timestamp>>,
}

impl ControlledClock {
    fn new(now: Timestamp) -> Self {
        ControlledClock {
            now: Rc::new(Cell::new(now)),
        }
    }

    fn advance_by(&mut self, secs: i64) {
        let now = self.now.get();
        self.now.replace(
            Timestamp::new(now.timestamp() + secs, now.timestamp_subsec_nanos()).unwrap(),
        );
    }
}

impl Default for ControlledClock {
    fn default() -> Self {
        ControlledClock::new(Timestamp::new(1_700_000_000, 0).unwrap())
    }
}

impl Clock for ControlledClock {
    fn now(&self) -> Timestamp {
        self.now.get()
    }
}

struct CountingRng {
    next: u8,
}

impl RngBytes for CountingRng {
    fn fill_bytes(&mut self, buf: &mut BlobId) {
        for byte in buf.iter_mut() {
            *byte = self.next;
        }
        self.next += 1;
    }
}

const DAY: i64 = 86_400;

fn read_to_string(reader: &mut FileReader) -> String {
    let mut data = Vec::new();
    loop {
        let bytes = reader.read(4).expect("failed to read cache entry");
        if bytes.is_empty() {
            return String::from_utf8(data).unwrap();
        }
        data.extend(bytes);
    }
}

fn cache_entry_with_content<C: Cache>(cache: &mut C, keys: &[&str], content: &str) -> IoPathResult<()> {
    let mut writer = cache.set(keys)?;
    write_all(&mut writer, content.as_bytes()).unwrap();
    cache.close(writer)
}

fn assert_cache_entry_with_content<C: Cache<Reader = FileReader>>(
    cache: &mut C,
    keys: &[&str],
    matched_key: &str,
    content: &str,
) {
    let CacheHit {
        key,
        mut reader,
        size_hint,
    } = cache
        .get(keys)
        .expect("IO failure getting cache entry")
        .expect("cache entry not found");
    assert_eq!(
        key, matched_key,
        "expected cache key '{}' to be restored, not '{}'",
        matched_key, key
    );
    assert_eq!(size_hint, Some(content.len() as u64));
    assert_eq!(
        read_to_string(&mut reader),
        content,
        "cache entry content mismatch"
    );
}

fn assert_no_cache_entry<C: Cache>(cache: &mut C, keys: &[&str]) {
    let result = cache.get(keys).expect("IO failure getting cache entry");
    assert!(result.is_none(), "unexpected cache entry found");
}

fn assert_blob_count(storage: &InMemoryStorage, count: usize) {
    let blob_dirs = storage.list("/blob").unwrap();
    assert_eq!(
        blob_dirs
            .iter()
            .map(|blob_dir| storage.list(&format!("/blob/{}", blob_dir.name)).unwrap().len())
            .sum::<usize>(),
        count,
        "Expected only {} blobs to remain",
        count
    );
}

fn read_meta(storage: &InMemoryStorage, key: &str) -> Meta {
    let mut handle = storage.get(&meta_path(key)).unwrap();
    let data = handle.reader.read(META_MAX_SIZE + 1).unwrap();
    Meta::from_bytes(&data).unwrap()
}

#[test]
fn local_test_returns_none_for_non_existent_keys() {
    let storage = InMemoryStorage::new();
    let mut cache = LocalCache::new(storage);
    assert_no_cache_entry(
        &mut cache,
        &["non-existent-key", "another-non-existent-key"],
    );
}

#[test]
fn local_test_roundtrip() {
    let storage = InMemoryStorage::new();
    let mut cache = LocalCache::new(storage);
    cache_entry_with_content(&mut cache, &["key"], "Hello, world!").unwrap();
    assert_cache_entry_with_content(&mut cache, &["key"], "key", "Hello, world!");
}

#[test]
fn local_test_can_retrieve_cached_data_from_all_set_keys() {
    let keys = ["key0", "key1"];

    let storage = InMemoryStorage::new();
    let mut cache = LocalCache::new(storage);
    cache_entry_with_content(&mut cache, &keys, "Hello, world!").unwrap();

    for key in keys {
        assert_cache_entry_with_content(&mut cache, &[key], key, "Hello, world!");
    }
}

#[test]
fn local_test_get_falls_back_to_first_available_key() {
    let storage = InMemoryStorage::new();
    let mut cache = LocalCache::new(storage);

    cache_entry_with_content(&mut cache, &["actual-key"], "Hello, world!").unwrap();
    cache_entry_with_content(&mut cache, &["ignored-key"], "Goodbye, world!").unwrap();

    assert_cache_entry_with_content(
        &mut cache,
        &["non-existent-key", "actual-key", "ignored-key"],
        "actual-key",
        "Hello, world!",
    );
}

#[test]
fn local_test_get_updates_last_access_time() {
    let mut clock = ControlledClock::default();
    let storage = InMemoryStorage::new();
    let mut cache = LocalCache::with_clock(storage, clock.clone());

    cache_entry_with_content(&mut cache, &["key"], "Hello, world!").unwrap();

    clock.advance_by(DAY);
    let mut reader = cache.get(&["key"]).unwrap().unwrap().reader;
    read_to_string(&mut reader);

    let storage = cache.into_storage();
    let meta = read_meta(&storage, "key");
    assert_eq!(meta.latest_access().unwrap(), clock.now());
}

#[test]
fn local_test_clean_does_not_do_anything_if_no_limits_are_given() {
    let storage = InMemoryStorage::new();
    let mut cache = LocalCache::new(storage);

    cache_entry_with_content(&mut cache, &["key"], "Hello, world!").unwrap();

    cache.clean(None, None).unwrap();

    assert_cache_entry_with_content(&mut cache, &["key"], "key", "Hello, world!");
}

#[test]
fn local_test_clean_removes_unused_entries() {
    let mut clock = ControlledClock::default();
    let storage = InMemoryStorage::new();
    let mut cache = LocalCache::with_clock(storage, clock.clone());

    cache_entry_with_content(&mut cache, &["old"], "Hello, world!").unwrap();
    clock.advance_by(2 * DAY);
    cache_entry_with_content(&mut cache, &["new"], "Goodbye, world!").unwrap();
    clock.advance_by(DAY);

    cache.clean(Some(TimeDelta::days(2)), None).unwrap();

    assert_no_cache_entry(&mut cache, &["old"]);
    assert_cache_entry_with_content(&mut cache, &["new"], "new", "Goodbye, world!");

    let storage = cache.into_storage();
    assert_blob_count(&storage, 1);
}

#[test]
fn test_clean_does_not_remove_entries_if_another_recently_accessed_key_exists() {
    let mut clock = ControlledClock::default();
    let storage = InMemoryStorage::new();
    let mut cache = LocalCache::with_clock(storage, clock.clone());

    cache_entry_with_content(&mut cache, &["old", "new"], "Hello, world!").unwrap();
    clock.advance_by(2 * DAY);

    cache.get(&["new"]).unwrap().unwrap();
    cache.clean(Some(TimeDelta::days(1)), None).unwrap();

    assert_cache_entry_with_content(&mut cache, &["old"], "old", "Hello, world!");
    assert_cache_entry_with_content(&mut cache, &["new"], "new", "Hello, world!");
}

#[test]
fn test_clean_removes_longest_unused_entries_until_space_limit_is_met() {
    let mut clock = ControlledClock::default();
    let storage = InMemoryStorage::new();
    let mut cache = LocalCache::with_clock(storage, clock.clone());

    cache_entry_with_content(
        &mut cache,
        &["3-days-old", "3-days-old-alternate-key"],
        "0123456789",
    )
    .unwrap();
    clock.advance_by(DAY);
    cache_entry_with_content(&mut cache, &["2-days-old"], "0123456789").unwrap();
    clock.advance_by(DAY);
    cache_entry_with_content(&mut cache, &["1-day-old"], "0123456789").unwrap();
    clock.advance_by(DAY);
    cache_entry_with_content(&mut cache, &["0-days-old"], "0123456789").unwrap();

    cache.clean(None, Some(21)).unwrap();

    assert_no_cache_entry(
        &mut cache,
        &["3-days-old", "3-days-old-alternate-key", "2-days-old"],
    );
    assert_cache_entry_with_content(&mut cache, &["1-day-old"], "1-day-old", "0123456789");
    assert_cache_entry_with_content(&mut cache, &["0-days-old"], "0-days-old", "0123456789");

    let storage = cache.into_storage();
    assert_blob_count(&storage, 2);
    assert!(!storage.exists_file(&meta_path("3-days-old")).unwrap());
    assert!(!storage
        .exists_file(&meta_path("3-days-old-alternate-key"))
        .unwrap());
    assert!(!storage.exists_file(&meta_path("2-days-old")).unwrap());
    assert!(storage.exists_file(&meta_path("1-day-old")).unwrap());
}

#[test]
fn test_key_without_blob_is_handled_gracefully() {
    let storage = InMemoryStorage::new();
    let mut cache = LocalCache::new(storage);
    cache_entry_with_content(&mut cache, &["key0"], "cached content").unwrap();

    let mut storage = cache.into_storage();
    let mut to_delete = Vec::new();
    for subdir in storage.list("/blob").unwrap() {
        for entry in storage.list(&format!("/blob/{}", subdir.name)).unwrap() {
            to_delete.push(format!("/blob/{}/{}", subdir.name, entry.name));
        }
    }
    for path in to_delete {
        storage.delete(&path).unwrap();
    }

    let mut cache = LocalCache::new(storage);
    cache_entry_with_content(&mut cache, &["key1"], "fallback").unwrap();

    assert!(cache.get(&["key0"]).unwrap().is_none());
    assert_cache_entry_with_content(&mut cache, &["key0", "key1"], "key1", "fallback");
}

#[test]
fn blob_and_meta_paths_follow_the_layout() {
    assert_eq!(
        blob_path(&[0; 16]),
        "/blob/aa/aaaaaaaaaaaaaaaaaaaaaaaa".to_string()
    );
    assert_eq!(
        blob_path(&[0xff; 16]),
        "/blob/55/555555555555555555555552".to_string()
    );
    let first = blake3::hash(b"cache-key").as_bytes()[0];
    let symbols = b"abcdefghijklmnopqrstuvwxyz012345";
    let fan_out = format!(
        "{}{}",
        symbols[(first >> 3) as usize] as char,
        symbols[((first & 0b111) << 2) as usize] as char
    );
    assert_eq!(
        meta_path("cache-key"),
        format!("/meta/{}/cache-key", fan_out)
    );
    assert!(meta_path("").starts_with("/meta/"));
}

#[test]
fn entry_is_not_available_before_its_writer_is_closed() {
    let mut cache = LocalCache::new(InMemoryStorage::new());
    let mut writer = cache.set(&["key"]).unwrap();
    write_all(&mut writer, b"data").unwrap();
    assert_no_cache_entry(&mut cache, &["key"]);
    cache.close(writer).unwrap();
    assert_cache_entry_with_content(&mut cache, &["key"], "key", "data");
}

#[test]
fn set_again_replaces_the_data_of_a_key() {
    let mut cache = LocalCache::new(InMemoryStorage::new());
    cache_entry_with_content(&mut cache, &["a", "b"], "first").unwrap();
    cache_entry_with_content(&mut cache, &["b"], "second").unwrap();
    assert_cache_entry_with_content(&mut cache, &["a"], "a", "first");
    assert_cache_entry_with_content(&mut cache, &["b"], "b", "second");
    assert_blob_count(cache.storage_ref(), 2);
}

#[test]
fn set_with_writes_the_given_blob_and_record() {
    let now = Timestamp::new(1_000, 7).unwrap();
    let mut cache = LocalCache::new(InMemoryStorage::new());
    let mut writer: CacheWriter<InMemoryStorage> =
        cache.set_with(&["k1", "k2"], [1; 16], now).unwrap();
    write_all(&mut writer, b"payload").unwrap();
    cache.close_writer(writer).unwrap();
    let storage = cache.into_storage();
    let mut handle = storage.get(&blob_path(&[1; 16])).unwrap();
    assert_eq!(handle.size_hint, 7);
    assert_eq!(handle.reader.read(100).unwrap(), b"payload");
    for key in ["k1", "k2"] {
        let meta = read_meta(&storage, key);
        assert_eq!(meta.blob_id(), &[1; 16]);
        assert_eq!(meta.latest_access().unwrap(), now);
    }
}

#[test]
fn get_at_marks_the_record_as_used_even_if_the_blob_is_gone() {
    let mut cache = LocalCache::new(InMemoryStorage::new());
    let writer = cache
        .set_with(&["k"], [2; 16], Timestamp::new(10, 0).unwrap())
        .unwrap();
    cache.close_writer(writer).unwrap();
    let mut storage = cache.into_storage();
    storage.delete(&blob_path(&[2; 16])).unwrap();
    let mut cache = LocalCache::new(storage);
    let later = Timestamp::new(20, 5).unwrap();
    assert!(cache.get_at(&["missing", "k"], later).unwrap().is_none());
    let meta = read_meta(cache.storage_ref(), "k");
    assert_eq!(meta.latest_access().unwrap(), later);
}

#[test]
fn get_reports_a_corrupt_meta_record() {
    let mut storage = InMemoryStorage::new();
    write_file(&mut storage, &meta_path("short"), b"too short").unwrap();
    let mut data = Meta::new([0; 16], Timestamp::new(1, 1).unwrap()).to_bytes();
    data[0] = 9;
    write_file(&mut storage, &meta_path("version"), &data).unwrap();
    let mut cache = LocalCache::new(storage);
    cache_entry_with_content(&mut cache, &["good"], "x").unwrap();
    for key in ["short", "version"] {
        let error = cache.get(&["none", key, "good"]).err().unwrap();
        assert_eq!(error.io_error().kind(), ErrorKind::InvalidData);
    }
    assert_cache_entry_with_content(&mut cache, &["good", "short"], "good", "x");
}

#[test]
fn last_access_does_not_go_back_under_an_advancing_clock() {
    let mut clock = ControlledClock::default();
    let mut cache = LocalCache::with_clock(InMemoryStorage::new(), clock.clone());
    cache_entry_with_content(&mut cache, &["key"], "data").unwrap();
    let mut previous = read_meta(cache.storage_ref(), "key").latest_access().unwrap();
    for step in [0, 1, 0, 3_600, 1] {
        clock.advance_by(step);
        cache.get(&["other", "key"]).unwrap().unwrap();
        let current = read_meta(cache.storage_ref(), "key").latest_access().unwrap();
        assert!(current.is_at_or_after(&previous));
        assert_eq!(current, clock.now());
        previous = current;
    }
}

#[test]
fn blob_ids_come_from_the_factory() {
    let factory = BlobIdFactory::new(CountingRng { next: 5 });
    let mut cache = LocalCache::with_blob_id_factory(InMemoryStorage::new(), factory);
    cache_entry_with_content(&mut cache, &["a"], "one").unwrap();
    cache_entry_with_content(&mut cache, &["b"], "two").unwrap();
    let storage = cache.into_storage();
    assert!(storage.exists_file(&blob_path(&[5; 16])).unwrap());
    assert!(storage.exists_file(&blob_path(&[6; 16])).unwrap());
    assert_eq!(read_meta(&storage, "b").blob_id(), &[6; 16]);
    let mut factory = BlobIdFactory::<ThreadRng>::default();
    assert_ne!(factory.new_id(), factory.new_id());
}

#[test]
fn clean_fails_on_a_cache_without_entries() {
    let mut cache = LocalCache::new(InMemoryStorage::new());
    let error = cache.clean(Some(TimeDelta::days(1)), None).err().unwrap();
    assert_eq!(error.io_error().kind(), ErrorKind::NotFound);
}

#[test]
fn clean_reports_a_corrupt_meta_record_and_deletes_nothing() {
    let mut clock = ControlledClock::default();
    let mut cache = LocalCache::with_clock(InMemoryStorage::new(), clock.clone());
    cache_entry_with_content(&mut cache, &["old"], "data").unwrap();
    clock.advance_by(10 * DAY);
    let mut storage = cache.into_storage();
    write_file(&mut storage, "/meta/zz/broken", b"garbage").unwrap();
    let mut cache = LocalCache::with_clock(storage, clock.clone());
    let error = cache.clean(Some(TimeDelta::days(1)), None).err().unwrap();
    assert_eq!(error.io_error().kind(), ErrorKind::InvalidData);
    assert!(cache
        .storage_ref()
        .exists_file(&meta_path("old"))
        .unwrap());
    assert_blob_count(cache.storage_ref(), 1);
}

#[test]
fn clean_leaves_blobs_without_keys_and_foreign_files_alone() {
    let mut clock = ControlledClock::default();
    let mut storage = InMemoryStorage::new();
    write_file(&mut storage, &blob_path(&[7; 16]), b"orphan").unwrap();
    write_file(&mut storage, "/blob/xx/not-an-id", b"foreign").unwrap();
    write_file(&mut storage, "/blob/top-level-file", b"foreign").unwrap();
    let mut cache = LocalCache::with_clock(storage, clock.clone());
    cache_entry_with_content(&mut cache, &["key"], "data").unwrap();
    clock.advance_by(10 * DAY);
    cache.clean_at(Some(TimeDelta::days(1)), Some(0), clock.now()).unwrap();
    assert_no_cache_entry(&mut cache, &["key"]);
    let storage = cache.into_storage();
    assert!(storage.exists_file(&blob_path(&[7; 16])).unwrap());
    assert!(storage.exists_file("/blob/xx/not-an-id").unwrap());
    assert!(storage.exists_file("/blob/top-level-file").unwrap());
    // The directory of the evicted blob stays, without entries.
    assert_eq!(storage.list("/blob").unwrap().len(), 4);
    assert_eq!(storage.list("/meta").unwrap().len(), 1);
}

#[test]
fn clean_keeps_what_fits_and_is_fresh() {
    let mut clock = ControlledClock::default();
    let mut cache = LocalCache::with_clock(InMemoryStorage::new(), clock.clone());
    cache_entry_with_content(&mut cache, &["a"], "12345").unwrap();
    clock.advance_by(DAY);
    cache_entry_with_content(&mut cache, &["b"], "12345").unwrap();
    cache.clean(Some(TimeDelta::days(2)), Some(10)).unwrap();
    assert_cache_entry_with_content(&mut cache, &["a"], "a", "12345");
    clock.advance_by(1);
    assert_cache_entry_with_content(&mut cache, &["b"], "b", "12345");
    cache.clean(None, Some(9)).unwrap();
    assert_no_cache_entry(&mut cache, &["a"]);
    assert_cache_entry_with_content(&mut cache, &["b"], "b", "12345");
    cache.clean(None, Some(4)).unwrap();
    assert_no_cache_entry(&mut cache, &["a", "b"]);
    assert_blob_count(cache.storage_ref(), 0);
}

#[test]
fn system_clock_cache_uses_the_current_time() {
    let before = SystemClock.now();
    let mut cache = LocalCache::new(InMemoryStorage::new());
    cache_entry_with_content(&mut cache, &["key"], "data").unwrap();
    let meta = read_meta(cache.storage_ref(), "key");
    assert!(meta.latest_access().unwrap().is_at_or_after(&before));
}

#[test]
fn writer_takes_all_of_a_buffer() {
    let mut cache = LocalCache::new(InMemoryStorage::new());
    let mut writer = cache.set(&["key"]).unwrap();
    writer.write_all(b"Hello, ").unwrap();
    writer.write_all(b"").unwrap();
    writer.write_all(b"world!").unwrap();
    cache.close(writer).unwrap();
    let mut hit = cache.get(&["key"]).unwrap().unwrap();
    assert_eq!(read_to_string(&mut hit.reader), "Hello, world!");
}
