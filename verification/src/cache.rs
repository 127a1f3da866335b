//! A cache manages keys and associated data, and uses a storage to store
//! that data.
//!
//! Data is stored under one or more keys and retrieved by any of them. What
//! is stored becomes available, all at once, when its writer is closed.

pub mod blob_id;
pub mod cache_dispatcher;
pub mod eviction;
pub mod inventory;
pub mod laws;
pub mod local;
pub mod meta;
pub mod remote;

use crate::error::IoPathResult;
use crate::util::io::{Read, Write};
use vstd::prelude::*;

verus! {

/// Returned on a successful cache get operation.
#[derive(Debug)]
pub struct CacheHit<'a, R> {
    /// Cache key that was hit.
    pub key: &'a str,
    /// Reader for the cached data.
    pub reader: R,
    /// (Approximate) size of the cached data in bytes.
    pub size_hint: Option<u64>,
}

/// A cache manages keys and associated data.
pub trait Cache {
    /// The type of reader returned by this cache.
    type Reader: Read;

    /// The type of writer returned by this cache.
    type Writer: Write;

    /// What the cache needs to hold of itself between calls.
    open spec fn inv(&self) -> bool {
        true
    }

    /// Whether a lookup of `keys` in this cache may leave the cache as
    /// `after` and return `r`. Each kind of cache says here what its lookups
    /// do; a cache that says nothing allows every outcome.
    open spec fn gets<'a>(
        &self,
        after: &Self,
        keys: Seq<&'a str>,
        r: IoPathResult<Option<CacheHit<'a, Self::Reader>>>,
    ) -> bool {
        true
    }

    /// Whether opening a writer for `keys` in this cache may leave the cache
    /// as `after` and return `r`. A cache that says nothing allows every
    /// outcome.
    open spec fn sets(&self, after: &Self, keys: Seq<&str>, r: IoPathResult<Self::Writer>) -> bool {
        true
    }

    /// Whether closing `writer` in this cache may leave the cache as `after`
    /// and return `r`. A cache that says nothing allows every outcome.
    open spec fn closes(&self, after: &Self, writer: Self::Writer, r: IoPathResult<()>) -> bool {
        true
    }

    /// Returns a reader for the data stored under the first given key found
    /// in the cache. If none of the keys is found, `Ok(None)` is returned.
    fn get<'a>(&mut self, keys: &[&'a str]) -> (r: IoPathResult<Option<CacheHit<'a, Self::Reader>>>)
        requires
            old(self).inv(),
        ensures
            final(self).inv(),
            old(self).gets(final(self), keys@, r),
            r matches Ok(Some(hit)) ==> exists|i: int|
                0 <= i < keys.len() && (#[trigger] keys[i])@ == hit.key@,
    ;

    /// Returns a writer for the data to be stored under all the given keys.
    /// The writer must be handed to [`Cache::close`] to make the data
    /// available.
    fn set(&mut self, keys: &[&str]) -> (r: IoPathResult<Self::Writer>)
        requires
            old(self).inv(),
        ensures
            final(self).inv(),
            old(self).sets(final(self), keys@, r),
    ;

    /// Makes what was written to `writer` available under the keys that the
    /// writer was opened for.
    fn close(&mut self, writer: Self::Writer) -> (r: IoPathResult<()>)
        requires
            old(self).inv(),
        ensures
            final(self).inv(),
            old(self).closes(final(self), writer, r),
    ;
}

} // verus!
