use btdt::cache::eviction::{plan_eviction, Blob};
use btdt::cache::inventory::{
    aggregate, collect_blob_sizes, iter_subdir_files, KeyRecord, SubdirFile,
};
use btdt::cache::local::blob_path;
use btdt::error::ErrorKind;
use btdt::storage::in_memory::InMemoryStorage;
use btdt::storage::write_file;
use btdt::util::clock::{TimeDelta, Timestamp};
use btdt::util::encoding::encode;

fn at(secs: i64) -> Timestamp {
    Timestamp::new(secs, 0).unwrap()
}

fn blob(latest_access: i64, size: u64, id: u8) -> Blob {
    Blob {
        latest_access: at(latest_access),
        size,
        blob_id: [id; 16],
        keys: vec![format!("key-{}", id)],
    }
}

#[test]
fn plan_evicts_nothing_without_blobs() {
    assert_eq!(
        plan_eviction(&vec![], Some(TimeDelta::seconds(0)), Some(0), at(100)),
        Vec::<usize>::new()
    );
}

#[test]
fn plan_evicts_what_is_older_than_the_allowed_age() {
    let blobs = vec![blob(50, 1, 1), blob(10, 1, 2), blob(30, 1, 3), blob(29, 1, 4)];
    assert_eq!(
        plan_eviction(&blobs, Some(TimeDelta::seconds(70)), None, at(100)),
        vec![1, 3]
    );
    assert_eq!(
        plan_eviction(&blobs, Some(TimeDelta::seconds(90)), None, at(100)),
        Vec::<usize>::new()
    );
    assert_eq!(
        plan_eviction(&blobs, Some(TimeDelta::seconds(-1)), None, at(100)),
        vec![1, 3, 2, 0]
    );
}

#[test]
fn plan_evicts_the_oldest_until_the_rest_fits() {
    let blobs = vec![blob(40, 10, 1), blob(10, 10, 2), blob(30, 10, 3), blob(20, 10, 4)];
    assert_eq!(plan_eviction(&blobs, None, Some(40), at(100)), Vec::<usize>::new());
    assert_eq!(plan_eviction(&blobs, None, Some(39), at(100)), vec![1]);
    assert_eq!(plan_eviction(&blobs, None, Some(21), at(100)), vec![1, 3]);
    assert_eq!(plan_eviction(&blobs, None, Some(20), at(100)), vec![1, 3]);
    assert_eq!(plan_eviction(&blobs, None, Some(9), at(100)), vec![1, 3, 2, 0]);
    assert_eq!(plan_eviction(&blobs, None, None, at(100)), Vec::<usize>::new());
}

#[test]
fn plan_applies_both_limits() {
    let blobs = vec![blob(10, 5, 1), blob(20, 50, 2), blob(90, 5, 3), blob(95, 5, 4)];
    assert_eq!(
        plan_eviction(&blobs, Some(TimeDelta::seconds(85)), Some(10), at(100)),
        vec![0, 1]
    );
    assert_eq!(
        plan_eviction(&blobs, Some(TimeDelta::seconds(85)), Some(9), at(100)),
        vec![0, 1, 2]
    );
}

#[test]
fn plan_orders_blobs_of_the_same_age_by_identifier() {
    let blobs = vec![blob(10, 1, 9), blob(10, 1, 3), blob(10, 1, 5)];
    assert_eq!(plan_eviction(&blobs, None, Some(1), at(100)), vec![1, 2]);
    assert_eq!(plan_eviction(&blobs, None, Some(0), at(100)), vec![1, 2, 0]);
}

#[test]
fn plan_counts_sizes_beyond_64_bits() {
    let blobs = vec![blob(10, u64::MAX, 1), blob(20, u64::MAX, 2)];
    assert_eq!(plan_eviction(&blobs, None, None, at(100)), vec![0]);
    assert_eq!(
        plan_eviction(&blobs, None, Some(u64::MAX), at(100)),
        vec![0]
    );
}

#[test]
fn subdir_files_are_the_files_two_levels_down() {
    let mut storage = InMemoryStorage::new();
    write_file(&mut storage, "/base/a/one", b"1").unwrap();
    write_file(&mut storage, "/base/a/two", b"22").unwrap();
    write_file(&mut storage, "/base/b/three", b"333").unwrap();
    write_file(&mut storage, "/base/direct", b"x").unwrap();
    write_file(&mut storage, "/base/a/deep/four", b"4444").unwrap();
    write_file(&mut storage, "/other/c/five", b"55555").unwrap();
    let mut files: Vec<(String, String, String, u64)> = iter_subdir_files(&storage, "/base")
        .unwrap()
        .into_iter()
        .map(|f| (f.path, f.subdir, f.name, f.size))
        .collect();
    files.sort();
    assert_eq!(
        files,
        vec![
            ("/base/a/one".to_string(), "a".to_string(), "one".to_string(), 1),
            ("/base/a/two".to_string(), "a".to_string(), "two".to_string(), 2),
            (
                "/base/b/three".to_string(),
                "b".to_string(),
                "three".to_string(),
                3
            ),
        ]
    );
    assert_eq!(
        iter_subdir_files(&storage, "/none")
            .err()
            .unwrap()
            .io_error()
            .kind(),
        ErrorKind::NotFound
    );
    assert_eq!(
        iter_subdir_files(&storage, "/base/direct")
            .err()
            .unwrap()
            .io_error()
            .kind(),
        ErrorKind::NotADirectory
    );
    assert_eq!(
        iter_subdir_files(&storage, "base")
            .err()
            .unwrap()
            .io_error()
            .kind(),
        ErrorKind::InvalidInput
    );
}

fn file(subdir: &str, name: &str, size: u64) -> SubdirFile {
    SubdirFile {
        path: format!("/blob/{}/{}", subdir, name),
        subdir: subdir.to_string(),
        name: name.to_string(),
        size,
    }
}

#[test]
fn blob_sizes_are_found_by_the_names_of_the_blobs() {
    let text = encode(&[3; 16]);
    let path = blob_path(&[3; 16]);
    assert_eq!(path, format!("/blob/{}/{}", &text[..2], &text[2..]));
    let files = vec![
        file(&text[..2], &text[2..], 10),
        file("zz", "not-a-blob", 5),
        file(&encode(&[4; 8])[..2], &encode(&[4; 8])[2..], 6),
        file(&encode(&[5; 16])[..3], &encode(&[5; 16])[3..], 7),
        file(&text[..2].to_uppercase(), &text[2..], 11),
    ];
    let sizes = collect_blob_sizes(&files);
    assert_eq!(sizes.len(), 2);
    assert_eq!(sizes.get(&u128::from_le_bytes([3; 16])), Some(&11));
    assert_eq!(sizes.get(&u128::from_le_bytes([5; 16])), Some(&7));
}

fn record(name: &str, id: u8, latest_access: i64) -> KeyRecord {
    KeyRecord {
        name: name.to_string(),
        blob_id: [id; 16],
        latest_access: at(latest_access),
    }
}

#[test]
fn keys_are_put_together_by_their_blobs() {
    let files = vec![
        file(&encode(&[1; 16])[..2], &encode(&[1; 16])[2..], 10),
        file(&encode(&[2; 16])[..2], &encode(&[2; 16])[2..], 20),
    ];
    let sizes = collect_blob_sizes(&files);
    let blobs = aggregate(
        vec![
            record("a", 2, 50),
            record("b", 1, 10),
            record("dangling", 9, 99),
            record("c", 2, 70),
            record("d", 2, 60),
        ],
        &sizes,
    );
    assert_eq!(blobs.len(), 2);
    assert_eq!(blobs[0].blob_id, [2; 16]);
    assert_eq!(blobs[0].size, 20);
    assert_eq!(blobs[0].latest_access, at(70));
    assert_eq!(blobs[0].keys, vec!["a", "c", "d"]);
    assert_eq!(blobs[1].blob_id, [1; 16]);
    assert_eq!(blobs[1].size, 10);
    assert_eq!(blobs[1].latest_access, at(10));
    assert_eq!(blobs[1].keys, vec!["b"]);
    assert_eq!(aggregate(vec![], &sizes).len(), 0);
}
