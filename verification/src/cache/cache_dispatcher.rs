//! One type for the caches that a server or a tool works with: a local
//! cache in memory, a local cache in another storage, or a remote cache.

use crate::cache::blob_id::ThreadRng;
use crate::cache::local::{looked_up, swept, LocalCache};
use crate::cache::remote::{Connector, RemoteCache, RemoteWriter};
use crate::cache::{Cache, CacheHit};
use crate::error::{ErrorKind, IoError, IoPathError, IoPathResult};
use crate::storage::in_memory::file_node::FileReader;
use crate::storage::in_memory::InMemoryStorage;
use crate::storage::Storage;
use crate::util::clock::{SystemClock, TimeDelta};
use crate::util::http::request::Connection;
use crate::util::http::response::{HttpResponse, ReadResponseBody};
use crate::util::io::{Read, Write};
use vstd::prelude::*;

verus! {

/// A local cache in memory.
pub type InMemoryCache = LocalCache<InMemoryStorage, SystemClock, ThreadRng>;

/// A local cache in the storage `S`.
pub type StoredCache<S> = LocalCache<S, SystemClock, ThreadRng>;

/// A cache of one of three kinds. `S` is the storage of the local cache
/// that is not in memory, for example the local filesystem; `K` makes the
/// connections of the remote cache.
pub enum CacheDispatcher<S: Storage, K: Connector> {
    /// A local cache in memory.
    InMemory(InMemoryCache),
    /// A local cache in the storage `S`.
    Filesystem(StoredCache<S>),
    /// A cache on a server.
    Remote(RemoteCache<K, SystemClock>),
}

/// The reader of an entry of a [`CacheDispatcher`].
pub enum CacheReader<S: Storage, K: Connector> {
    /// Reads from a local cache in memory.
    InMemory(FileReader),
    /// Reads from a local cache in the storage `S`.
    Filesystem(S::Reader),
    /// Reads from a cache on a server.
    Remote(HttpResponse<ReadResponseBody, <K::Connection as Connection>::Reader>),
}

/// The writer of an entry of a [`CacheDispatcher`].
pub enum CacheWriter<S: Storage, K: Connector> {
    /// Writes to a local cache in memory.
    InMemory(crate::cache::local::CacheWriter<InMemoryStorage>),
    /// Writes to a local cache in the storage `S`.
    Filesystem(crate::cache::local::CacheWriter<S>),
    /// Writes to a cache on a server.
    Remote(RemoteWriter<K::Connection>),
}

impl<S: Storage, K: Connector> Read for CacheReader<S, K> {
    open spec fn remaining(&self) -> Seq<u8> {
        match self {
            CacheReader::InMemory(reader) => reader.remaining(),
            CacheReader::Filesystem(reader) => reader.remaining(),
            CacheReader::Remote(reader) => reader.remaining(),
        }
    }

    open spec fn reliable(&self) -> bool {
        match self {
            CacheReader::InMemory(reader) => reader.reliable(),
            CacheReader::Filesystem(reader) => reader.reliable(),
            CacheReader::Remote(reader) => reader.reliable(),
        }
    }

    fn read(&mut self, max_len: usize) -> (r: Result<Vec<u8>, IoError>) {
        match self {
            CacheReader::InMemory(reader) => reader.read(max_len),
            CacheReader::Filesystem(reader) => reader.read(max_len),
            CacheReader::Remote(reader) => reader.read(max_len),
        }
    }
}

impl<S: Storage, K: Connector> Write for CacheWriter<S, K> {
    open spec fn written(&self) -> Seq<u8> {
        match self {
            CacheWriter::InMemory(writer) => writer.written(),
            CacheWriter::Filesystem(writer) => writer.written(),
            CacheWriter::Remote(writer) => writer.written(),
        }
    }

    open spec fn reliable(&self) -> bool {
        match self {
            CacheWriter::InMemory(writer) => writer.reliable(),
            CacheWriter::Filesystem(writer) => writer.reliable(),
            CacheWriter::Remote(writer) => writer.reliable(),
        }
    }

    open spec fn target(&self) -> Seq<Seq<char>> {
        match self {
            CacheWriter::InMemory(writer) => writer.target(),
            CacheWriter::Filesystem(writer) => writer.target(),
            CacheWriter::Remote(writer) => writer.target(),
        }
    }

    open spec fn flushed(&self) -> bool {
        match self {
            CacheWriter::InMemory(writer) => writer.flushed(),
            CacheWriter::Filesystem(writer) => writer.flushed(),
            CacheWriter::Remote(writer) => writer.flushed(),
        }
    }

    fn write(&mut self, buf: &[u8]) -> (r: Result<usize, IoError>)
        ensures
            old(self).same_entry(*final(self)),
    {
        match self {
            CacheWriter::InMemory(writer) => writer.write(buf),
            CacheWriter::Filesystem(writer) => writer.write(buf),
            CacheWriter::Remote(writer) => writer.write(buf),
        }
    }

    fn flush(&mut self) -> (r: Result<(), IoError>)
        ensures
            old(self).same_entry(*final(self)),
    {
        match self {
            CacheWriter::InMemory(writer) => writer.flush(),
            CacheWriter::Filesystem(writer) => writer.flush(),
            CacheWriter::Remote(writer) => writer.flush(),
        }
    }
}

impl<S: Storage, K: Connector> CacheWriter<S, K> {
    /// Whether `after` is a writer of the same kind as this one, and, if
    /// it writes to a local cache, for the same meta records, none of which
    /// has been touched if none had been before.
    pub open spec fn same_entry(self, after: Self) -> bool {
        match (self, after) {
            (CacheWriter::InMemory(a), CacheWriter::InMemory(b)) => a.meta_targets()
                == b.meta_targets() && a.record() == b.record() && a.metas_untouched()
                == b.metas_untouched(),
            (CacheWriter::Filesystem(a), CacheWriter::Filesystem(b)) => a.meta_targets()
                == b.meta_targets() && a.record() == b.record() && a.metas_untouched()
                == b.metas_untouched(),
            (CacheWriter::Remote(_), CacheWriter::Remote(_)) => true,
            _ => false,
        }
    }
}

/// Whether `after` and `r` are what a lookup of `keys` in the local cache
/// `before` gives. What it gives is stated for a reliable storage.
pub open spec fn local_get<'a, T: Storage, R: Read>(
    before: StoredCache<T>,
    after: StoredCache<T>,
    keys: Seq<&'a str>,
    r: IoPathResult<Option<CacheHit<'a, R>>>,
) -> bool {
    &&& after.storage().reliable() == before.storage().reliable()
    &&& before.storage().reliable() ==> looked_up(before.entries(), after.entries(), keys, r)
}

/// What a lookup in a remote cache found, handed on with a reader of a
/// [`CacheDispatcher`].
pub open spec fn remote_found<'a, S: Storage, K: Connector>(
    found: IoPathResult<
        Option<CacheHit<'a, HttpResponse<ReadResponseBody, <K::Connection as Connection>::Reader>>>,
    >,
) -> IoPathResult<Option<CacheHit<'a, CacheReader<S, K>>>> {
    match found {
        Ok(Some(hit)) => Ok(
            Some(
                CacheHit {
                    key: hit.key,
                    reader: CacheReader::Remote(hit.reader),
                    size_hint: hit.size_hint,
                },
            ),
        ),
        Ok(None) => Ok(None),
        Err(e) => Err(e),
    }
}

/// Whether `after` and `r` are what an eviction pass with both limits gives
/// in the local cache `before`. What it gives is stated for a reliable
/// storage.
pub open spec fn local_clean<T: Storage>(
    before: StoredCache<T>,
    after: StoredCache<T>,
    cache_expiration: TimeDelta,
    max_cache_size: u64,
    r: IoPathResult<()>,
) -> bool {
    &&& after.storage().reliable() == before.storage().reliable()
    &&& before.storage().reliable() ==> swept(
        before.entries(),
        after.entries(),
        Some(cache_expiration),
        Some(max_cache_size),
        r,
    )
}

impl<S: Storage, K: Connector> CacheDispatcher<S, K> {
    /// Runs an eviction pass with both limits on a local cache. A remote
    /// cache is left alone: it is cleaned by its server.
    pub fn clean_cache(&mut self, cache_expiration: TimeDelta, max_cache_size: u64) -> (r:
        IoPathResult<()>)
        requires
            old(self).inv(),
        ensures
            final(self).inv(),
            match (*old(self), *final(self)) {
                (CacheDispatcher::InMemory(before), CacheDispatcher::InMemory(after)) => local_clean(
                    before,
                    after,
                    cache_expiration,
                    max_cache_size,
                    r,
                ),
                (
                    CacheDispatcher::Filesystem(before),
                    CacheDispatcher::Filesystem(after),
                ) => local_clean(before, after, cache_expiration, max_cache_size, r),
                (CacheDispatcher::Remote(before), CacheDispatcher::Remote(after)) => r is Ok
                    && after == before,
                _ => false,
            },
    {
        match self {
            CacheDispatcher::InMemory(cache) => cache.clean(
                Some(cache_expiration),
                Some(max_cache_size),
            ),
            CacheDispatcher::Filesystem(cache) => cache.clean(
                Some(cache_expiration),
                Some(max_cache_size),
            ),
            CacheDispatcher::Remote(_) => Ok(()),
        }
    }
}

impl<S: Storage, K: Connector> Cache for CacheDispatcher<S, K> {
    type Reader = CacheReader<S, K>;

    type Writer = CacheWriter<S, K>;

    open spec fn inv(&self) -> bool {
        match self {
            CacheDispatcher::InMemory(cache) => cache.inv(),
            CacheDispatcher::Filesystem(cache) => cache.inv(),
            CacheDispatcher::Remote(cache) => true,
        }
    }

    /// A lookup does what a lookup in the cache of this kind does, and its
    /// reader is of the kind of the cache: the reader of the cache, handed
    /// on as it is.
    open spec fn gets<'a>(
        &self,
        after: &Self,
        keys: Seq<&'a str>,
        r: IoPathResult<Option<CacheHit<'a, Self::Reader>>>,
    ) -> bool {
        match (*self, *after) {
            (CacheDispatcher::InMemory(before), CacheDispatcher::InMemory(after)) => local_get(
                before,
                after,
                keys,
                r,
            ) && (r matches Ok(Some(hit)) ==> hit.reader is InMemory),
            (CacheDispatcher::Filesystem(before), CacheDispatcher::Filesystem(after)) => local_get(
                before,
                after,
                keys,
                r,
            ) && (r matches Ok(Some(hit)) ==> hit.reader is Filesystem),
            (CacheDispatcher::Remote(before), CacheDispatcher::Remote(after)) => exists|
                found: IoPathResult<
                    Option<
                        CacheHit<
                            'a,
                            HttpResponse<ReadResponseBody, <K::Connection as Connection>::Reader>,
                        >,
                    >,
                >,
            | before.gets(&after, keys, found) && r == #[trigger] remote_found::<S, K>(found),
            _ => false,
        }
    }

    /// Opening a writer does what it does in the cache of this kind, and
    /// the writer is of the kind of the cache.
    open spec fn sets(&self, after: &Self, keys: Seq<&str>, r: IoPathResult<Self::Writer>) -> bool {
        match (*self, *after) {
            (CacheDispatcher::InMemory(before), CacheDispatcher::InMemory(after)) => match r {
                Ok(CacheWriter::InMemory(writer)) => before.sets(
                    &after,
                    keys,
                    Ok::<crate::cache::local::CacheWriter<InMemoryStorage>, IoPathError>(writer),
                ),
                Ok(_) => false,
                Err(e) => before.sets(
                    &after,
                    keys,
                    Err::<crate::cache::local::CacheWriter<InMemoryStorage>, IoPathError>(e),
                ),
            },
            (CacheDispatcher::Filesystem(before), CacheDispatcher::Filesystem(after)) => match r {
                Ok(CacheWriter::Filesystem(writer)) => before.sets(
                    &after,
                    keys,
                    Ok::<crate::cache::local::CacheWriter<S>, IoPathError>(writer),
                ),
                Ok(_) => false,
                Err(e) => before.sets(
                    &after,
                    keys,
                    Err::<crate::cache::local::CacheWriter<S>, IoPathError>(e),
                ),
            },
            (CacheDispatcher::Remote(before), CacheDispatcher::Remote(after)) => match r {
                Ok(CacheWriter::Remote(writer)) => before.sets(
                    &after,
                    keys,
                    Ok::<RemoteWriter<K::Connection>, IoPathError>(writer),
                ),
                Ok(_) => false,
                Err(e) => before.sets(
                    &after,
                    keys,
                    Err::<RemoteWriter<K::Connection>, IoPathError>(e),
                ),
            },
            _ => false,
        }
    }

    /// Closing a writer that a cache of this kind opened does what it does
    /// in that cache. A writer of another kind of cache is refused, and
    /// nothing is done.
    open spec fn closes(&self, after: &Self, writer: Self::Writer, r: IoPathResult<()>) -> bool {
        match (*self, *after, writer) {
            (
                CacheDispatcher::InMemory(before),
                CacheDispatcher::InMemory(after),
                CacheWriter::InMemory(writer),
            ) => before.closes(&after, writer, r),
            (
                CacheDispatcher::Filesystem(before),
                CacheDispatcher::Filesystem(after),
                CacheWriter::Filesystem(writer),
            ) => before.closes(&after, writer, r),
            (
                CacheDispatcher::Remote(before),
                CacheDispatcher::Remote(after),
                CacheWriter::Remote(writer),
            ) => before.closes(&after, writer, r),
            _ => *after == *self && (r matches Err(e) && e.kind() == ErrorKind::InvalidInput),
        }
    }

    /// Looks the keys up in the cache; the reader is of the kind of the
    /// cache.
    fn get<'a>(&mut self, keys: &[&'a str]) -> (r: IoPathResult<Option<CacheHit<'a, Self::Reader>>>)
    {
        match self {
            CacheDispatcher::InMemory(cache) => {
                let ghost reliable = cache.storage().reliable();
                let ghost before = cache.entries();
                let found = cache.get(keys);
                let ghost after = cache.entries();
                let r = match found {
                    Ok(Some(hit)) => Ok(
                        Some(
                            CacheHit {
                                key: hit.key,
                                reader: CacheReader::InMemory(hit.reader),
                                size_hint: hit.size_hint,
                            },
                        ),
                    ),
                    Ok(None) => Ok(None),
                    Err(e) => Err(e),
                };
                proof {
                    if reliable {
                        lemma_same_lookup::<FileReader, CacheReader<S, K>>(
                            before,
                            after,
                            keys@,
                            found,
                            r,
                        );
                    }
                }
                r
            },
            CacheDispatcher::Filesystem(cache) => {
                let ghost reliable = cache.storage().reliable();
                let ghost before = cache.entries();
                let found = cache.get(keys);
                let ghost after = cache.entries();
                let r = match found {
                    Ok(Some(hit)) => Ok(
                        Some(
                            CacheHit {
                                key: hit.key,
                                reader: CacheReader::Filesystem(hit.reader),
                                size_hint: hit.size_hint,
                            },
                        ),
                    ),
                    Ok(None) => Ok(None),
                    Err(e) => Err(e),
                };
                proof {
                    if reliable {
                        lemma_same_lookup::<S::Reader, CacheReader<S, K>>(
                            before,
                            after,
                            keys@,
                            found,
                            r,
                        );
                    }
                }
                r
            },
            CacheDispatcher::Remote(cache) => {
                let ghost before = *cache;
                let found = cache.get(keys);
                let ghost seen = found;
                let r = match found {
                    Ok(Some(hit)) => Ok(
                        Some(
                            CacheHit {
                                key: hit.key,
                                reader: CacheReader::Remote(hit.reader),
                                size_hint: hit.size_hint,
                            },
                        ),
                    ),
                    Ok(None) => Ok(None),
                    Err(e) => Err(e),
                };
                proof {
                    assert(before.gets(&*cache, keys@, seen) && r == remote_found::<S, K>(seen));
                }
                r
            },
        }
    }

    /// Opens a writer in the cache; the writer is of the kind of the
    /// cache.
    fn set(&mut self, keys: &[&str]) -> (r: IoPathResult<Self::Writer>)
    {
        match self {
            CacheDispatcher::InMemory(cache) => match cache.set(keys) {
                Ok(writer) => Ok(CacheWriter::InMemory(writer)),
                Err(e) => Err(e),
            },
            CacheDispatcher::Filesystem(cache) => match cache.set(keys) {
                Ok(writer) => Ok(CacheWriter::Filesystem(writer)),
                Err(e) => Err(e),
            },
            CacheDispatcher::Remote(cache) => match cache.set(keys) {
                Ok(writer) => Ok(CacheWriter::Remote(writer)),
                Err(e) => Err(e),
            },
        }
    }

    /// Closes a writer that this cache opened. A writer of another kind of
    /// cache is refused, and nothing is done.
    fn close(&mut self, writer: Self::Writer) -> (r: IoPathResult<()>)
    {
        match self {
            CacheDispatcher::InMemory(cache) => match writer {
                CacheWriter::InMemory(writer) => cache.close(writer),
                _ => Err(foreign_writer()),
            },
            CacheDispatcher::Filesystem(cache) => match writer {
                CacheWriter::Filesystem(writer) => cache.close(writer),
                _ => Err(foreign_writer()),
            },
            CacheDispatcher::Remote(cache) => match writer {
                CacheWriter::Remote(writer) => cache.close(writer),
                _ => Err(foreign_writer()),
            },
        }
    }
}

/// The error for a writer that another kind of cache opened: invalid
/// input, without a path.
fn foreign_writer() -> (e: IoPathError)
    ensures
        e.kind() == ErrorKind::InvalidInput,
        e.path is None,
        e.error.message@ == "the writer was opened by another kind of cache"@,
{
    IoPathError::new_no_path(
        IoError::new(ErrorKind::InvalidInput, "the writer was opened by another kind of cache"),
    )
}

/// What a lookup gives stays what it is when its reader is handed on as a
/// reader that reads the same.
proof fn lemma_same_lookup<'a, A: Read, B: Read>(
    before: crate::storage::Entries,
    after: crate::storage::Entries,
    keys: Seq<&'a str>,
    found: IoPathResult<Option<CacheHit<'a, A>>>,
    r: IoPathResult<Option<CacheHit<'a, B>>>,
)
    requires
        looked_up(before, after, keys, found),
        match found {
            Ok(Some(hit)) => r matches Ok(Some(same)) && same.key == hit.key && same.size_hint
                == hit.size_hint && same.reader.reliable() == hit.reader.reliable()
                && same.reader.remaining() == hit.reader.remaining(),
            Ok(None) => r matches Ok(None),
            Err(e) => r matches Err(same) && same == e,
        },
    ensures
        looked_up(before, after, keys, r),
{
    let now = choose|now: crate::util::clock::Timestamp|
        now.wf() && crate::cache::local::reports_get(
            found,
            keys,
            (#[trigger] crate::cache::local::cache_get(
                before,
                crate::cache::local::key_texts(keys),
                0,
                now,
            )).0,
        ) && after == crate::cache::local::cache_get(
            before,
            crate::cache::local::key_texts(keys),
            0,
            now,
        ).1;
    assert(crate::cache::local::reports_get(
        r,
        keys,
        crate::cache::local::cache_get(before, crate::cache::local::key_texts(keys), 0, now).0,
    ));
}

} // verus!
