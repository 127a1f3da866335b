//! The meta record of a cache key.
//!
//! A record is 40 bytes long. It holds, in this order: the schema version as
//! 16 bits, the blob identifier, six bytes of padding, the seconds of the
//! last access as 64 bits, its nanoseconds as 32 bits, and four bytes of
//! padding. Numbers are little-endian, the seconds in two's complement.

use crate::cache::blob_id::BlobId;
use crate::util::clock::{unix_time_exists, Timestamp};
use vstd::bytes::{
    spec_u16_from_le_bytes, spec_u16_to_le_bytes, spec_u32_from_le_bytes, spec_u32_to_le_bytes,
    spec_u64_from_le_bytes, spec_u64_to_le_bytes, u16_from_le_bytes, u16_to_le_bytes,
    u32_from_le_bytes, u32_to_le_bytes, u64_from_le_bytes, u64_to_le_bytes,
};
use vstd::prelude::*;

verus! {

/// The size of a serialized meta record in bytes.
pub const META_MAX_SIZE: usize = 40;

/// The schema version that is written and the only one that is read.
pub const META_VERSION: u16 = 1;

/// Why bytes are not a meta record.
#[derive(Debug, Clone, Copy, PartialEq, Eq, Structural)]
pub enum DeserializationError {
    /// The record does not have its fixed length.
    Length,
    /// The schema version is not the known one.
    Version,
    /// Seconds and nanoseconds do not form a point in time.
    Timestamp,
}

/// The fields of a meta record: blob identifier, seconds and nanoseconds of
/// the last access.
pub struct MetaFields {
    pub blob_id: Seq<u8>,
    pub secs: i64,
    pub nanos: u32,
}

/// `n` bytes of padding.
pub open spec fn padding(n: nat) -> Seq<u8> {
    Seq::new(n, |i: int| 0u8)
}

/// The serialized form of a meta record.
pub open spec fn meta_bytes(fields: MetaFields) -> Seq<u8> {
    spec_u16_to_le_bytes(META_VERSION) + fields.blob_id + padding(6) + spec_u64_to_le_bytes(
        fields.secs as u64,
    ) + spec_u32_to_le_bytes(fields.nanos) + padding(4)
}

/// What bytes are read as: the fields of a meta record, or the reason why
/// they are none.
pub open spec fn parse_meta(bytes: Seq<u8>) -> Result<MetaFields, DeserializationError> {
    if bytes.len() != META_MAX_SIZE {
        Err(DeserializationError::Length)
    } else if spec_u16_from_le_bytes(bytes.subrange(0, 2)) != META_VERSION {
        Err(DeserializationError::Version)
    } else {
        let secs = spec_u64_from_le_bytes(bytes.subrange(24, 32)) as i64;
        let nanos = spec_u32_from_le_bytes(bytes.subrange(32, 36));
        if unix_time_exists(secs, nanos) {
            Ok(MetaFields { blob_id: bytes.subrange(2, 18), secs, nanos })
        } else {
            Err(DeserializationError::Timestamp)
        }
    }
}

/// What was written can be read: the serialized form of a record with a
/// blob identifier of 16 bytes and a point in time is read as that record.
pub proof fn lemma_meta_round_trip(fields: MetaFields)
    requires
        fields.blob_id.len() == 16,
        unix_time_exists(fields.secs, fields.nanos),
    ensures
        meta_bytes(fields).len() == META_MAX_SIZE,
        parse_meta(meta_bytes(fields)) == Ok::<MetaFields, DeserializationError>(fields),
{
    vstd::bytes::lemma_auto_spec_u16_to_from_le_bytes();
    vstd::bytes::lemma_auto_spec_u32_to_from_le_bytes();
    vstd::bytes::lemma_auto_spec_u64_to_from_le_bytes();
    let bytes = meta_bytes(fields);
    let secs = fields.secs;
    assert(bytes.subrange(0, 2) =~= spec_u16_to_le_bytes(META_VERSION));
    assert(bytes.subrange(2, 18) =~= fields.blob_id);
    assert(bytes.subrange(24, 32) =~= spec_u64_to_le_bytes(secs as u64));
    assert(bytes.subrange(32, 36) =~= spec_u32_to_le_bytes(fields.nanos));
    assert((secs as u64) as i64 == secs) by (bit_vector);
    let parsed = parse_meta(bytes);
    assert(parsed is Ok);
    assert(parsed->Ok_0.blob_id == fields.blob_id);
    assert(parsed->Ok_0.secs == fields.secs);
    assert(parsed->Ok_0.nanos == fields.nanos);
}

/// The meta record of a cache key: the blob that the key stands for, and
/// when the key was last used.
#[derive(Debug, Clone, Copy)]
pub struct Meta {
    blob_id: BlobId,
    latest_access: Timestamp,
}

impl Meta {
    /// The fields of the record.
    pub closed spec fn fields(&self) -> MetaFields {
        MetaFields {
            blob_id: self.blob_id@,
            secs: self.latest_access.secs(),
            nanos: self.latest_access.nanos(),
        }
    }

    /// The blob identifier of the record.
    pub closed spec fn spec_blob_id(&self) -> BlobId {
        self.blob_id
    }

    /// The last access of the record.
    pub closed spec fn spec_latest_access(&self) -> Timestamp {
        self.latest_access
    }

    /// How the fields and the parts of the record go together.
    pub proof fn lemma_fields(&self)
        ensures
            self.fields().blob_id == self.spec_blob_id()@,
            self.fields().secs == self.spec_latest_access().secs(),
            self.fields().nanos == self.spec_latest_access().nanos(),
    {
    }

    /// Creates the record of a key that was used at `latest_access` and
    /// stands for the blob `blob_id`.
    pub fn new(blob_id: BlobId, latest_access: Timestamp) -> (meta: Self)
        ensures
            meta.spec_blob_id() == blob_id,
            meta.spec_latest_access() == latest_access,
    {
        Meta { blob_id, latest_access }
    }

    /// Reads a serialized record.
    pub fn from_bytes(data: &[u8]) -> (r: Result<Self, DeserializationError>)
        ensures
            match parse_meta(data@) {
                Ok(fields) => r matches Ok(meta) && meta.fields() == fields,
                Err(reason) => r == Err::<Self, DeserializationError>(reason),
            },
    {
        if data.len() != META_MAX_SIZE {
            return Err(DeserializationError::Length);
        }
        let version = u16_from_le_bytes(vstd::slice::slice_subrange(data, 0, 2));
        if version != META_VERSION {
            return Err(DeserializationError::Version);
        }
        let secs = u64_from_le_bytes(vstd::slice::slice_subrange(data, 24, 32)) as i64;
        let nanos = u32_from_le_bytes(vstd::slice::slice_subrange(data, 32, 36));
        let latest_access = match Timestamp::new(secs, nanos) {
            Some(t) => t,
            None => {
                return Err(DeserializationError::Timestamp);
            },
        };
        let blob_id: BlobId = [
            data[2],
            data[3],
            data[4],
            data[5],
            data[6],
            data[7],
            data[8],
            data[9],
            data[10],
            data[11],
            data[12],
            data[13],
            data[14],
            data[15],
            data[16],
            data[17],
        ];
        assert(blob_id@ =~= data@.subrange(2, 18));
        Ok(Meta { blob_id, latest_access })
    }

    /// Sets the time of the last access.
    pub fn set_latest_access(&mut self, latest_access: Timestamp)
        ensures
            final(self).spec_blob_id() == old(self).spec_blob_id(),
            final(self).spec_latest_access() == latest_access,
    {
        self.latest_access = latest_access;
    }

    /// The blob that the key stands for.
    pub fn blob_id(&self) -> (blob_id: &BlobId)
        ensures
            *blob_id == self.spec_blob_id(),
    {
        &self.blob_id
    }

    /// When the key was last used.
    pub fn latest_access(&self) -> (r: Result<Timestamp, DeserializationError>)
        ensures
            r == Ok::<Timestamp, DeserializationError>(self.spec_latest_access()),
    {
        Ok(self.latest_access)
    }

    /// The serialized form of the record.
    pub fn to_bytes(&self) -> (data: Vec<u8>)
        ensures
            data@ == meta_bytes(self.fields()),
            data.len() == META_MAX_SIZE,
            parse_meta(data@) == Ok::<MetaFields, DeserializationError>(self.fields()),
    {
        let mut data = u16_to_le_bytes(META_VERSION);
        let mut i: usize = 0;
        while i < 16
            invariant
                i <= 16,
                data@ == spec_u16_to_le_bytes(META_VERSION) + self.blob_id@.take(i as int),
            decreases 16 - i,
        {
            data.push(self.blob_id[i]);
            assert(self.blob_id@.take(i as int).push(self.blob_id@[i as int])
                =~= self.blob_id@.take(i + 1));
            i += 1;
        }
        assert(self.blob_id@.take(16) =~= self.blob_id@);
        let mut pad: usize = 0;
        while pad < 6
            invariant
                pad <= 6,
                data@ == spec_u16_to_le_bytes(META_VERSION) + self.blob_id@ + padding(pad as nat),
            decreases 6 - pad,
        {
            data.push(0);
            assert(padding(pad as nat).push(0u8) =~= padding((pad + 1) as nat));
            pad += 1;
        }
        let mut secs = u64_to_le_bytes(self.latest_access.timestamp() as u64);
        data.append(&mut secs);
        let mut nanos = u32_to_le_bytes(self.latest_access.timestamp_subsec_nanos());
        data.append(&mut nanos);
        let ghost head = data@;
        let mut pad: usize = 0;
        while pad < 4
            invariant
                pad <= 4,
                data@ == head + padding(pad as nat),
            decreases 4 - pad,
        {
            data.push(0);
            assert(padding(pad as nat).push(0u8) =~= padding((pad + 1) as nat));
            pad += 1;
        }
        let latest_access = self.latest_access.checked();
        proof {
            lemma_meta_round_trip(self.fields());
        }
        data
    }
}

} // verus!
