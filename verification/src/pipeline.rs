//! A pipeline defines how a directory becomes one entry of a cache, and an
//! entry a directory again. The files are packed into, and unpacked from,
//! the one stream of bytes that the cache stores.

use crate::cache::{Cache, CacheHit};
use crate::error::IoPathResult;
use vstd::prelude::*;

verus! {

/// A pipeline on top of a cache.
pub struct Pipeline<C: Cache> {
    cache: C,
}

impl<C: Cache> Pipeline<C> {
    /// The cache of the pipeline.
    pub closed spec fn cache(&self) -> C {
        self.cache
    }

    /// Creates a new pipeline with the given cache.
    pub fn new(cache: C) -> (pipeline: Self)
        ensures
            pipeline.cache() == cache,
    {
        Pipeline { cache }
    }

    /// Consumes the pipeline and returns the cache.
    pub fn into_cache(self) -> (cache: C)
        ensures
            cache == self.cache(),
    {
        self.cache
    }

    /// Opens the entry that is to be restored: looks `keys` up in the cache
    /// of the pipeline, which finds the first of the keys that it has, and
    /// hands on what the lookup gives.
    pub fn open_restore<'a>(&mut self, keys: &[&'a str]) -> (r: IoPathResult<
        Option<CacheHit<'a, C::Reader>>,
    >)
        requires
            old(self).cache().inv(),
        ensures
            final(self).cache().inv(),
            old(self).cache().gets(&final(self).cache(), keys@, r),
            r matches Ok(Some(hit)) ==> exists|i: int|
                0 <= i < keys.len() && (#[trigger] keys[i])@ == hit.key@,
    {
        self.cache.get(keys)
    }

    /// Opens the writer for an entry that is to be stored under the keys:
    /// the writer that the cache of the pipeline opens for `keys`.
    pub fn open_store(&mut self, keys: &[&str]) -> (r: IoPathResult<C::Writer>)
        requires
            old(self).cache().inv(),
        ensures
            final(self).cache().inv(),
            old(self).cache().sets(&final(self).cache(), keys@, r),
    {
        self.cache.set(keys)
    }

    /// Publishes an entry that was written: closes `writer` in the cache of
    /// the pipeline, and hands on how that ends.
    pub fn finish_store(&mut self, writer: C::Writer) -> (r: IoPathResult<()>)
        requires
            old(self).cache().inv(),
        ensures
            final(self).cache().inv(),
            old(self).cache().closes(&final(self).cache(), writer, r),
    {
        self.cache.close(writer)
    }
}

} // verus!
