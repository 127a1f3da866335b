use btdt::cache::blob_id::BLOB_ID_SIZE;
use btdt::cache::meta::{DeserializationError, Meta, META_MAX_SIZE};
use btdt::util::clock::Timestamp;

// 2025-01-24T20:47:33.123Z
fn date() -> Timestamp {
    Timestamp::new(1_737_751_653, 123_000_000).unwrap()
}

#[test]
fn test_meta_stores_values_passed_in_constructor() {
    let blob_id = b"0123456789012345";
    let date = date();
    let meta = Meta::new(blob_id.to_owned(), date);
    assert_eq!(meta.blob_id(), blob_id);
    assert_eq!(meta.latest_access().unwrap(), date);
}

#[test]
fn test_can_set_latest_access_date() {
    let mut meta = Meta::new([0; BLOB_ID_SIZE], date());
    let date = Timestamp::new(1_737_751_653 + 86_400, 123_000_000).unwrap();
    meta.set_latest_access(date);
    assert_eq!(meta.latest_access().unwrap(), date);
}

#[test]
fn test_meta_roundtrip() {
    let meta_in = Meta::new([0; BLOB_ID_SIZE], date());
    let data = meta_in.to_bytes();
    let meta_out = Meta::from_bytes(&data).unwrap();
    assert_eq!(meta_in.blob_id(), meta_out.blob_id());
    assert_eq!(
        meta_in.latest_access().unwrap(),
        meta_out.latest_access().unwrap()
    );
}

#[test]
fn test_meta_max_size_is_accurate() {
    let meta = Meta::new([0; BLOB_ID_SIZE], date());
    let serialized_size = meta.to_bytes().len();
    assert_eq!(
        serialized_size, META_MAX_SIZE,
        "Set META_MAX_SIZE (currently {}) to {}, the correct serialized size of Meta",
        serialized_size, META_MAX_SIZE
    );
}

#[test]
fn meta_has_its_fields_at_their_places() {
    let blob_id: [u8; 16] = [
        0x10, 0x11, 0x12, 0x13, 0x14, 0x15, 0x16, 0x17, 0x18, 0x19, 0x1a, 0x1b, 0x1c, 0x1d, 0x1e,
        0x1f,
    ];
    let meta = Meta::new(blob_id, Timestamp::new(0x0102_0304_05, 0x0a0b_0c0d).unwrap());
    let mut expected = vec![1u8, 0];
    expected.extend_from_slice(&blob_id);
    expected.extend_from_slice(&[0; 6]);
    expected.extend_from_slice(&[0x05, 0x04, 0x03, 0x02, 0x01, 0, 0, 0]);
    expected.extend_from_slice(&[0x0d, 0x0c, 0x0b, 0x0a]);
    expected.extend_from_slice(&[0; 4]);
    assert_eq!(meta.to_bytes(), expected);
}

#[test]
fn meta_keeps_times_before_1970() {
    let date = Timestamp::new(-86_400, 5).unwrap();
    let data = Meta::new([9; BLOB_ID_SIZE], date).to_bytes();
    assert_eq!(&data[24..32], &(-86_400i64).to_le_bytes());
    let meta = Meta::from_bytes(&data).unwrap();
    assert_eq!(meta.latest_access().unwrap(), date);
    assert_eq!(meta.blob_id(), &[9; BLOB_ID_SIZE]);
}

#[test]
fn meta_of_wrong_length_is_refused() {
    let data = Meta::new([0; BLOB_ID_SIZE], date()).to_bytes();
    assert_eq!(
        Meta::from_bytes(&data[..39]).unwrap_err(),
        DeserializationError::Length
    );
    let mut longer = data.clone();
    longer.push(0);
    assert_eq!(
        Meta::from_bytes(&longer).unwrap_err(),
        DeserializationError::Length
    );
    assert_eq!(
        Meta::from_bytes(&[]).unwrap_err(),
        DeserializationError::Length
    );
}

#[test]
fn meta_of_unknown_version_is_refused() {
    let mut data = Meta::new([0; BLOB_ID_SIZE], date()).to_bytes();
    data[0] = 2;
    assert_eq!(
        Meta::from_bytes(&data).unwrap_err(),
        DeserializationError::Version
    );
    data[0] = 1;
    data[1] = 1;
    assert_eq!(
        Meta::from_bytes(&data).unwrap_err(),
        DeserializationError::Version
    );
}

#[test]
fn meta_with_malformed_timestamp_is_refused() {
    let mut data = Meta::new([0; BLOB_ID_SIZE], date()).to_bytes();
    data[32..36].copy_from_slice(&2_000_000_000u32.to_le_bytes());
    assert_eq!(
        Meta::from_bytes(&data).unwrap_err(),
        DeserializationError::Timestamp
    );
    let mut data = Meta::new([0; BLOB_ID_SIZE], date()).to_bytes();
    data[24..32].copy_from_slice(&i64::MAX.to_le_bytes());
    assert_eq!(
        Meta::from_bytes(&data).unwrap_err(),
        DeserializationError::Timestamp
    );
}

#[test]
fn meta_ignores_its_padding() {
    let mut data = Meta::new([3; BLOB_ID_SIZE], date()).to_bytes();
    data[20] = 0xff;
    data[39] = 0xff;
    let meta = Meta::from_bytes(&data).unwrap();
    assert_eq!(meta.blob_id(), &[3; BLOB_ID_SIZE]);
    assert_eq!(meta.latest_access().unwrap(), date());
}
