//! The answers of the API of the cache server.
//!
//! A request is answered in three steps. It is refused unless its token
//! allows it; the cache is not looked at before that. A request for a cache
//! that the server does not have finds nothing. Any other request is handed
//! to its cache, and answered by what the cache gives.

use crate::cache::{Cache, CacheHit};
use crate::error::{IoPathError, IoPathResult};
use crate::server::{
    status_code, status_for, Authorization, Served, STATUS_INTERNAL_SERVER_ERROR,
    STATUS_NO_CONTENT,
};
use vstd::prelude::*;

verus! {

/// The answer to a request that looks keys up.
pub enum GetAnswer<'a, R> {
    /// The token of the request does not allow it.
    Refused(Authorization),
    /// The server has no cache with the identifier of the request.
    CacheNotFound,
    /// The cache has none of the keys.
    CacheMiss,
    /// The cache has a key; the data follows.
    CacheHit(CacheHit<'a, R>),
    /// The cache failed.
    Failed(IoPathError),
}

/// The answer to a request that stores data, before the data is taken.
pub enum PutAnswer<W> {
    /// The token of the request does not allow it.
    Refused(Authorization),
    /// The server has no cache with the identifier of the request.
    CacheNotFound,
    /// The cache has opened a writer, which takes the data.
    Writer(W),
    /// The cache failed.
    Failed(IoPathError),
}

impl<'a, R> GetAnswer<'a, R> {
    /// How the request was served, if it was not refused.
    pub open spec fn served(&self) -> Served {
        match self {
            GetAnswer::Refused(_) => Served::Failed,
            GetAnswer::CacheNotFound => Served::CacheNotFound,
            GetAnswer::CacheMiss => Served::CacheMiss,
            GetAnswer::CacheHit(_) => Served::CacheHit,
            GetAnswer::Failed(_) => Served::Failed,
        }
    }

    /// How the request was authorized.
    pub open spec fn authorization(&self) -> Authorization {
        match self {
            GetAnswer::Refused(authorization) => *authorization,
            _ => Authorization::Granted,
        }
    }

    /// The status code of the answer.
    pub open spec fn code(&self) -> u16 {
        status_for(self.authorization(), self.served())
    }

    /// The status code of the answer.
    pub fn status(&self) -> (code: u16)
        ensures
            code == self.code(),
    {
        match self {
            GetAnswer::Refused(authorization) => status_code(*authorization, Served::Failed),
            GetAnswer::CacheNotFound => status_code(
                Authorization::Granted,
                Served::CacheNotFound,
            ),
            GetAnswer::CacheMiss => status_code(Authorization::Granted, Served::CacheMiss),
            GetAnswer::CacheHit(_) => status_code(Authorization::Granted, Served::CacheHit),
            GetAnswer::Failed(_) => status_code(Authorization::Granted, Served::Failed),
        }
    }
}

impl<W> PutAnswer<W> {
    /// The status code of the answer; a writer has none yet.
    pub open spec fn code(&self) -> Option<u16> {
        match self {
            PutAnswer::Refused(authorization) => Some(status_for(*authorization, Served::Failed)),
            PutAnswer::CacheNotFound => Some(
                status_for(Authorization::Granted, Served::CacheNotFound),
            ),
            PutAnswer::Writer(_) => None,
            PutAnswer::Failed(_) => Some(status_for(Authorization::Granted, Served::Failed)),
        }
    }

    /// The status code of the answer; a writer has none yet.
    pub fn status(&self) -> (code: Option<u16>)
        ensures
            code == self.code(),
    {
        match self {
            PutAnswer::Refused(authorization) => Some(
                status_code(*authorization, Served::Failed),
            ),
            PutAnswer::CacheNotFound => Some(
                status_code(Authorization::Granted, Served::CacheNotFound),
            ),
            PutAnswer::Writer(_) => None,
            PutAnswer::Failed(_) => Some(status_code(Authorization::Granted, Served::Failed)),
        }
    }
}

/// Answers a request that looks `keys` up in `cache`, the cache that the
/// request names, if the server has it.
pub fn answer_get<'a, C: Cache>(
    authorization: Authorization,
    cache: Option<&mut C>,
    keys: &[&'a str],
) -> (answer: GetAnswer<'a, C::Reader>)
    requires
        cache matches Some(c) ==> c.inv(),
    ensures
        cache matches Some(c) ==> final(c).inv(),
        authorization != Authorization::Granted ==> (answer matches GetAnswer::Refused(a) && a
            == authorization),
        authorization != Authorization::Granted ==> (cache matches Some(c) ==> *final(c) == *c),
        authorization == Authorization::Granted && cache is None ==> answer
            is CacheNotFound,
        authorization == Authorization::Granted ==> (cache matches Some(c) ==> exists|
            found: IoPathResult<Option<CacheHit<'a, C::Reader>>>,
        | #[trigger] c.gets(final(c), keys@, found) && answer == answer_to_lookup(found)),
        answer matches GetAnswer::CacheHit(hit) ==> exists|i: int|
            0 <= i < keys.len() && (#[trigger] keys[i])@ == hit.key@,
{
    match authorization {
        Authorization::Granted => {},
        _ => {
            return GetAnswer::Refused(authorization);
        },
    }
    match cache {
        None => GetAnswer::CacheNotFound,
        Some(cache) => {
            let found = cache.get(keys);
            lookup_answer(found)
        },
    }
}

/// The answer to a request that was handed to its cache, for what the
/// lookup in the cache gave: the hit, a miss, or the failure.
pub open spec fn answer_to_lookup<'a, R>(
    found: IoPathResult<Option<CacheHit<'a, R>>>,
) -> GetAnswer<'a, R> {
    match found {
        Ok(Some(hit)) => GetAnswer::CacheHit(hit),
        Ok(None) => GetAnswer::CacheMiss,
        Err(e) => GetAnswer::Failed(e),
    }
}

/// Tells the answer to a request that was handed to its cache, for what
/// the lookup in the cache gave.
pub fn lookup_answer<'a, R>(found: IoPathResult<Option<CacheHit<'a, R>>>) -> (answer: GetAnswer<
    'a,
    R,
>)
    ensures
        answer == answer_to_lookup(found),
{
    match found {
        Ok(Some(hit)) => GetAnswer::CacheHit(hit),
        Ok(None) => GetAnswer::CacheMiss,
        Err(e) => GetAnswer::Failed(e),
    }
}

/// Answers a request that stores data under `keys` in `cache`, the cache
/// that the request names, if the server has it. The data is written to
/// the writer of the answer, which is then closed with [`finish_put`].
pub fn answer_put<C: Cache>(authorization: Authorization, cache: Option<&mut C>, keys: &[&str]) -> (answer:
    PutAnswer<C::Writer>)
    requires
        cache matches Some(c) ==> c.inv(),
    ensures
        cache matches Some(c) ==> final(c).inv(),
        authorization != Authorization::Granted ==> (answer matches PutAnswer::Refused(a) && a
            == authorization),
        authorization != Authorization::Granted ==> (cache matches Some(c) ==> *final(c) == *c),
        authorization == Authorization::Granted && cache is None ==> answer
            is CacheNotFound,
        authorization == Authorization::Granted ==> (cache matches Some(c) ==> exists|
            opened: IoPathResult<C::Writer>,
        | #[trigger] c.sets(final(c), keys@, opened) && answer == answer_to_opening(opened)),
{
    match authorization {
        Authorization::Granted => {},
        _ => {
            return PutAnswer::Refused(authorization);
        },
    }
    match cache {
        None => PutAnswer::CacheNotFound,
        Some(cache) => {
            let opened = cache.set(keys);
            opening_answer(opened)
        },
    }
}

/// The answer to a request that was handed to its cache, for what opening
/// a writer in the cache gave: the writer, or the failure.
pub open spec fn answer_to_opening<W>(opened: IoPathResult<W>) -> PutAnswer<W> {
    match opened {
        Ok(writer) => PutAnswer::Writer(writer),
        Err(e) => PutAnswer::Failed(e),
    }
}

/// Tells the answer to a request that was handed to its cache, for what
/// opening a writer in the cache gave.
pub fn opening_answer<W>(opened: IoPathResult<W>) -> (answer: PutAnswer<W>)
    ensures
        answer == answer_to_opening(opened),
{
    match opened {
        Ok(writer) => PutAnswer::Writer(writer),
        Err(e) => PutAnswer::Failed(e),
    }
}

/// Ends a request that stores data: closes the writer that took the data
/// in the cache, and tells the status code of the answer for how that
/// ended, with the error if there is one.
pub fn finish_put<C: Cache>(cache: &mut C, writer: C::Writer) -> (r: (u16, Option<IoPathError>))
    requires
        old(cache).inv(),
    ensures
        final(cache).inv(),
        exists|closed: IoPathResult<()>| #[trigger]
            old(cache).closes(final(cache), writer, closed) && r == answer_to_closing(closed),
{
    let closed = cache.close(writer);
    closing_answer(closed)
}

/// The status code of the answer to a request that stored data, for how the
/// closing of its writer ended: 204 if the data was stored, and 500 with
/// the error if not.
pub open spec fn answer_to_closing(closed: IoPathResult<()>) -> (u16, Option<IoPathError>) {
    match closed {
        Ok(()) => (STATUS_NO_CONTENT, None),
        Err(e) => (STATUS_INTERNAL_SERVER_ERROR, Some(e)),
    }
}

/// Tells the status code of the answer to a request that stored data, for
/// how the closing of its writer ended.
pub fn closing_answer(closed: IoPathResult<()>) -> (r: (u16, Option<IoPathError>))
    ensures
        r == answer_to_closing(closed),
{
    match closed {
        Ok(()) => (status_code(Authorization::Granted, Served::Stored), None),
        Err(e) => (status_code(Authorization::Granted, Served::Failed), Some(e)),
    }
}

/// The most bytes that are read at once from a cache for the body of an
/// answer: 512 KiB.
pub const MAX_CHUNK_SIZE: usize = 524_288;

/// The bytes that are read at once beyond the size that a cache told.
pub const CHUNK_MARGIN: usize = 1_024;

/// How many bytes are read at once from a cache for the body of an answer:
/// a little more than the size that the cache told, and never more than 512
/// KiB, which are read if the cache told no size.
pub fn chunk_size(size_hint: Option<u64>) -> (size: usize)
    ensures
        size == (match size_hint {
            Some(hint) => if hint + CHUNK_MARGIN < MAX_CHUNK_SIZE {
                hint + CHUNK_MARGIN
            } else {
                MAX_CHUNK_SIZE as int
            },
            None => MAX_CHUNK_SIZE as int,
        }),
{
    match size_hint {
        Some(hint) => if hint < (MAX_CHUNK_SIZE - CHUNK_MARGIN) as u64 {
            hint as usize + CHUNK_MARGIN
        } else {
            MAX_CHUNK_SIZE
        },
        None => MAX_CHUNK_SIZE,
    }
}

} // verus!
