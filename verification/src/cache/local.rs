//! A local cache that stores data in a storage.
//!
//! The storage holds two directories. `/blob/<aa>/<rest>` is the blob with
//! the identifier whose text form is `<aa><rest>`. `/meta/<h>/<key>` is the
//! meta record of `<key>`, where `<h>` is the text form of the first byte of
//! the BLAKE3 hash of the key.

use crate::cache::blob_id::{BlobId, BlobIdFactory, RngBytes, ThreadRng, BLOB_ID_SIZE};
use crate::cache::eviction::{is_plan, keys_of, plan_eviction, views, Blob, BlobView};
use crate::cache::inventory::{
    aggregate, aggregated, blob_sizes, child_path, collect_blob_sizes, files_below, is_file_below,
    iter_subdir_files, record_views, KeyRecord, KeyRecordView, SubdirFile,
};
use crate::cache::meta::{meta_bytes, parse_meta, Meta, MetaFields, META_MAX_SIZE};
use crate::cache::{Cache, CacheHit};
use crate::error::{ErrorKind, IoError, IoPathError, IoPathResult};
use crate::storage::in_memory::path_iter::{
    is_absolute, is_component, lemma_split_append, lemma_split_cons, lemma_split_slash,
    split_components,
};
use crate::storage::{
    consistent, delete_error, get_error, lemma_store_over_file, list_error, put_error, sound,
    store_error, with_file, with_parents, without, write_file, Components, Entries, EntryView,
    Storage,
};
use crate::util::clock::{Clock, SystemClock, TimeDelta, Timestamp};
use crate::util::encoding::{encode, encoded};
use crate::util::io::{read_exact, write_all, Read, Write};
use crate::util::text::{append_str, str_chars, string_from_chars};
use vstd::prelude::*;

verus! {

/// The BLAKE3 hash of `data`.
pub uninterp spec fn blake3_digest(data: Seq<u8>) -> Seq<u8>;

/// Hashes `data` with `blake3::hash`, whose result is 32 bytes long.
#[verifier::external_body]
fn blake3_hash(data: &[u8]) -> (digest: [u8; 32])
    ensures
        digest@ == blake3_digest(data@),
{
    *blake3::hash(data).as_bytes()
}

/// The name of the directory that holds the meta record of `key`.
pub open spec fn fan_out(key: Seq<char>) -> Seq<char> {
    encoded(blake3_digest(vstd::utf8::encode_utf8(key)).take(1))
}

/// The storage path of the meta record of `key`.
pub open spec fn meta_path_text(key: Seq<char>) -> Seq<char> {
    "/meta/"@ + fan_out(key) + "/"@ + key
}

/// The storage path of the blob with the identifier `blob_id`.
pub open spec fn blob_path_text(blob_id: Seq<u8>) -> Seq<char> {
    "/blob/"@ + encoded(blob_id).take(2) + "/"@ + encoded(blob_id).skip(2)
}

/// The components of the storage path of the meta record of `key`.
pub open spec fn meta_components(key: Seq<char>) -> Components {
    split_components(meta_path_text(key))
}

/// The components of the storage path of the blob `blob_id`.
pub open spec fn blob_components(blob_id: Seq<u8>) -> Components {
    split_components(blob_path_text(blob_id))
}

/// The storage path of the blob with the identifier `blob_id`.
pub fn blob_path(blob_id: &BlobId) -> (path: String)
    ensures
        path@ == blob_path_text(blob_id@),
{
    let text = encode(vstd::array::array_as_slice(blob_id));
    let symbols = str_chars(text.as_str());
    let mut path = str_chars("/blob/");
    let mut i: usize = 0;
    while i < 2
        invariant
            i <= 2,
            symbols.len() == 26,
            path@ == "/blob/"@ + symbols@.take(i as int),
        decreases 2 - i,
    {
        path.push(symbols[i]);
        assert(symbols@.take(i as int).push(symbols@[i as int]) =~= symbols@.take(i + 1));
        i += 1;
    }
    path.push('/');
    proof {
        reveal_strlit("/");
        assert("/"@ =~= seq!['/']);
    }
    while i < symbols.len()
        invariant
            2 <= i <= symbols.len(),
            path@ == "/blob/"@ + symbols@.take(2) + "/"@ + symbols@.subrange(2, i as int),
        decreases symbols.len() - i,
    {
        path.push(symbols[i]);
        assert(symbols@.subrange(2, i as int).push(symbols@[i as int]) =~= symbols@.subrange(
            2,
            i + 1,
        ));
        i += 1;
    }
    assert(symbols@.subrange(2, symbols.len() as int) =~= symbols@.skip(2));
    string_from_chars(path.as_slice())
}

/// The storage path of the meta record of `key`.
pub fn meta_path(key: &str) -> (path: String)
    ensures
        path@ == meta_path_text(key@),
{
    let digest = blake3_hash(key.as_bytes());
    let first = vstd::slice::slice_subrange(vstd::array::array_as_slice(&digest), 0, 1);
    assert(first@ =~= digest@.take(1));
    let hash = encode(first);
    let mut path = str_chars("/meta/");
    append_str(&mut path, hash.as_str());
    append_str(&mut path, "/");
    append_str(&mut path, key);
    string_from_chars(path.as_slice())
}

/// The path of a file that was found two levels below `base` leads to that
/// file.
pub proof fn lemma_path_of_file(entries: Entries, base: Seq<char>, file: SubdirFile)
    requires
        consistent(entries),
        is_absolute(base),
        is_file_below(file, entries, base),
    ensures
        is_absolute(file.path@),
        split_components(file.path@) == split_components(base).push(file.subdir@).push(file.name@),
        get_error(entries, file.path@) is None,
{
    let root = split_components(base);
    let below = root.push(file.subdir@).push(file.name@);
    assert(is_component(below[root.len() as int]));
    assert(is_component(below[root.len() as int + 1]));
    lemma_split_append(base, file.subdir@);
    lemma_split_append(child_path(base, file.subdir@), file.name@);
    assert(file.path@[0] == base[0]);
}

/// Where one of the files holds no meta record, not all of them do.
pub proof fn lemma_records_missing(entries: Entries, files: Seq<SubdirFile>, i: int)
    requires
        0 <= i < files.len(),
        key_record(entries, files[i]) is None,
    ensures
        key_records(entries, files) is None,
    decreases files.len(),
{
    if i < files.len() - 1 {
        assert(files.drop_last()[i] == files[i]);
        lemma_records_missing(entries, files.drop_last(), i);
    }
}

/// The first component of the path of every meta record is `meta`.
pub proof fn lemma_meta_components(key: Seq<char>)
    ensures
        meta_components(key).len() > 0,
        meta_components(key)[0] == "meta"@,
{
    reveal_strlit("/meta/");
    reveal_strlit("meta");
    reveal_strlit("/");
    let rest = fan_out(key) + "/"@ + key;
    lemma_first_component("meta"@, rest);
    assert(meta_path_text(key) =~= seq!['/'] + "meta"@ + seq!['/'] + rest);
}

/// The first component of the path of every blob is `blob`.
pub proof fn lemma_blob_components(blob_id: Seq<u8>)
    ensures
        blob_components(blob_id).len() > 0,
        blob_components(blob_id)[0] == "blob"@,
{
    reveal_strlit("/blob/");
    reveal_strlit("blob");
    reveal_strlit("/");
    let rest = encoded(blob_id).take(2) + "/"@ + encoded(blob_id).skip(2);
    lemma_first_component("blob"@, rest);
    assert(blob_path_text(blob_id) =~= seq!['/'] + "blob"@ + seq!['/'] + rest);
}

/// The path `/name/rest` has `name` as its first component.
proof fn lemma_first_component(name: Seq<char>, rest: Seq<char>)
    requires
        is_component(name),
    ensures
        split_components(seq!['/'] + name + seq!['/'] + rest).len() > 0,
        split_components(seq!['/'] + name + seq!['/'] + rest)[0] == name,
{
    let tail = seq!['/'] + rest;
    lemma_split_cons(name, tail);
    lemma_split_slash(name + tail);
    assert(seq!['/'] + (name + tail) =~= seq!['/'] + name + seq!['/'] + rest);
}

/// No path of a blob is a path of a meta record, nor lies above or below
/// one.
pub proof fn lemma_blob_and_meta_apart(blob_id: Seq<u8>, key: Seq<char>)
    ensures
        blob_components(blob_id) != meta_components(key),
        !crate::storage::is_proper_prefix(blob_components(blob_id), meta_components(key)),
        !crate::storage::is_proper_prefix(meta_components(key), blob_components(blob_id)),
{
    lemma_blob_components(blob_id);
    lemma_meta_components(key);
    reveal_strlit("blob");
    reveal_strlit("meta");
    let b = blob_components(blob_id);
    let m = meta_components(key);
    assert(b[0] != m[0]) by {
        assert("blob"@[0] != "meta"@[0]);
    }
    if crate::storage::is_proper_prefix(b, m) {
        assert(m.take(b.len() as int)[0] == b[0]);
    }
    if crate::storage::is_proper_prefix(m, b) {
        assert(b.take(m.len() as int)[0] == m[0]);
    }
}

/// The content of the file at `path`; empty if there is no file.
pub open spec fn file_content(entries: Entries, path: Components) -> Seq<u8> {
    match entries(path) {
        Some(EntryView::File(content)) => content,
        _ => Seq::empty(),
    }
}

/// What a storage holds for a key.
pub enum KeyState {
    /// There is no meta record.
    Absent,
    /// What is in place of the meta record cannot be read as a file.
    Unreadable(ErrorKind),
    /// The file is not a meta record.
    Corrupt,
    /// The meta record.
    Record(MetaFields),
}

/// What the storage holds for `key`. Of a file that is longer than a meta
/// record, the start is read.
pub open spec fn key_state(entries: Entries, key: Seq<char>) -> KeyState {
    match get_error(entries, meta_path_text(key)) {
        Some(ErrorKind::NotFound) => KeyState::Absent,
        Some(kind) => KeyState::Unreadable(kind),
        None => {
            let content = file_content(entries, meta_components(key));
            if content.len() < META_MAX_SIZE {
                KeyState::Corrupt
            } else {
                match parse_meta(content.take(META_MAX_SIZE as int)) {
                    Ok(fields) => KeyState::Record(fields),
                    Err(_) => KeyState::Corrupt,
                }
            }
        },
    }
}

/// The fields of a meta record that was used at `now`.
pub open spec fn used_at(fields: MetaFields, now: Timestamp) -> MetaFields {
    MetaFields { blob_id: fields.blob_id, secs: now.secs(), nanos: now.nanos() }
}

/// The entries after the meta record of `key`, with the given fields, was
/// marked as used at `now`.
pub open spec fn touched(entries: Entries, key: Seq<char>, fields: MetaFields, now: Timestamp)
    -> Entries {
    with_file(entries, meta_components(key), meta_bytes(used_at(fields, now)))
}

/// How a lookup ends.
pub enum GetOutcome {
    /// The key at `index` was found; `content` is the data stored under it.
    Hit { index: int, content: Seq<u8> },
    /// None of the keys was found.
    Miss,
    /// The lookup was given up with an error of this kind.
    Failed(ErrorKind),
}

/// A lookup of `keys[from..]` at the time `now`: how it ends, and what the
/// storage holds afterwards.
///
/// The keys are tried in order. A key without a meta record is passed over.
/// A meta record that cannot be read ends the lookup with an error. A meta
/// record that can be read is marked as used at `now`; the lookup ends with
/// its blob if there is one, goes on with the next key if there is none, and
/// ends with an error if what is in the blob's place cannot be read.
pub open spec fn cache_get(entries: Entries, keys: Seq<Seq<char>>, from: int, now: Timestamp) -> (
    GetOutcome,
    Entries,
)
    decreases keys.len() - from,
{
    if from < 0 || from >= keys.len() {
        (GetOutcome::Miss, entries)
    } else {
        match key_state(entries, keys[from]) {
            KeyState::Absent => cache_get(entries, keys, from + 1, now),
            KeyState::Unreadable(kind) => (GetOutcome::Failed(kind), entries),
            KeyState::Corrupt => (GetOutcome::Failed(ErrorKind::InvalidData), entries),
            KeyState::Record(fields) => {
                let after = touched(entries, keys[from], fields, now);
                match get_error(after, blob_path_text(fields.blob_id)) {
                    None => (
                        GetOutcome::Hit {
                            index: from,
                            content: file_content(after, blob_components(fields.blob_id)),
                        },
                        after,
                    ),
                    Some(ErrorKind::NotFound) => cache_get(after, keys, from + 1, now),
                    Some(kind) => (GetOutcome::Failed(kind), after),
                }
            },
        }
    }
}

/// The keys as sequences of characters.
pub open spec fn key_texts(keys: Seq<&str>) -> Seq<Seq<char>> {
    keys.map_values(|key: &str| key@)
}

/// Whether the result of a lookup reports the given outcome.
pub open spec fn reports_get<'a, R: Read>(
    r: IoPathResult<Option<CacheHit<'a, R>>>,
    keys: Seq<&'a str>,
    outcome: GetOutcome,
) -> bool {
    match outcome {
        GetOutcome::Hit { index, content } => r matches Ok(Some(hit)) && 0 <= index < keys.len()
            && hit.key@ == keys[index]@ && hit.reader.reliable() && hit.reader.remaining()
            == content && hit.size_hint == Some(content.len() as u64) && content.len()
            <= u64::MAX,
        GetOutcome::Miss => r matches Ok(None),
        GetOutcome::Failed(kind) => r matches Err(e) && e.kind() == kind,
    }
}

/// The opening of writers for the meta records of `keys[from..]`: the kind
/// of the error that ends it, if any, and what the storage holds afterwards.
pub open spec fn open_metas(entries: Entries, keys: Seq<Seq<char>>, from: int) -> (
    Option<ErrorKind>,
    Entries,
)
    decreases keys.len() - from,
{
    if from < 0 || from >= keys.len() {
        (None, entries)
    } else {
        match put_error(entries, meta_path_text(keys[from])) {
            Some(kind) => (Some(kind), entries),
            None => open_metas(
                with_parents(entries, meta_components(keys[from])),
                keys,
                from + 1,
            ),
        }
    }
}

/// The opening of a writer for the blob `blob_id` and then of writers for
/// the meta records of `keys`, which creates the directories above them: the
/// kind of the error that ends it, if any, and what the storage holds
/// afterwards.
pub open spec fn cache_set(entries: Entries, keys: Seq<Seq<char>>, blob_id: Seq<u8>) -> (
    Option<ErrorKind>,
    Entries,
) {
    match put_error(entries, blob_path_text(blob_id)) {
        Some(kind) => (Some(kind), entries),
        None => open_metas(with_parents(entries, blob_components(blob_id)), keys, 0),
    }
}

/// The writing of the meta record `record` to `targets[from..]`, one after
/// the other: the kind of the error that ends it, if any, and what the
/// storage holds afterwards.
pub open spec fn close_metas(
    entries: Entries,
    targets: Seq<Components>,
    from: int,
    record: Seq<u8>,
) -> (Option<ErrorKind>, Entries)
    decreases targets.len() - from,
{
    if from < 0 || from >= targets.len() {
        (None, entries)
    } else {
        match store_error(entries, targets[from]) {
            Some(kind) => (Some(kind), entries),
            None => close_metas(
                with_file(entries, targets[from], record),
                targets,
                from + 1,
                record,
            ),
        }
    }
}

/// The publishing of a cache entry: the blob first, then the meta records
/// in order. Gives the kind of the error that ends it, if any, and what the
/// storage holds afterwards.
pub open spec fn cache_close(
    entries: Entries,
    blob_target: Components,
    content: Seq<u8>,
    targets: Seq<Components>,
    record: Seq<u8>,
) -> (Option<ErrorKind>, Entries) {
    match store_error(entries, blob_target) {
        Some(kind) => (Some(kind), entries),
        None => close_metas(with_file(entries, blob_target, content), targets, 0, record),
    }
}

/// A writer for a cache entry.
pub struct CacheWriter<S: Storage> {
    blob_writer: S::Writer,
    meta_writers: Vec<S::Writer>,
    meta: Meta,
}

impl<S: Storage> CacheWriter<S> {
    fn new(blob_writer: S::Writer, meta_writers: Vec<S::Writer>, meta: Meta) -> (writer: Self)
        ensures
            writer.blob_writer == blob_writer,
            writer.meta_writers == meta_writers,
            writer.meta == meta,
    {
        CacheWriter { blob_writer, meta_writers, meta }
    }

    /// The paths of the meta records that are written when the writer is
    /// closed.
    pub closed spec fn meta_targets(&self) -> Seq<Components> {
        self.meta_writers@.map_values(|w: S::Writer| w.target())
    }

    /// The meta record that is written for every key.
    pub closed spec fn record(&self) -> MetaFields {
        self.meta.fields()
    }

    /// Whether nothing has been written for the meta records yet, and their
    /// writers are reliable.
    pub closed spec fn metas_untouched(&self) -> bool {
        forall|i: int|
            0 <= i < self.meta_writers.len() ==> (#[trigger] self.meta_writers[i]).reliable()
                && self.meta_writers[i].written() == Seq::<u8>::empty()
    }

    /// Writes all of `buf` to the blob, by as many writes as it takes. What
    /// is known of the meta records stays as it is.
    pub fn write_all(&mut self, buf: &[u8]) -> (r: Result<(), IoError>)
        ensures
            final(self).reliable() == old(self).reliable(),
            final(self).target() == old(self).target(),
            final(self).meta_targets() == old(self).meta_targets(),
            final(self).record() == old(self).record(),
            final(self).metas_untouched() == old(self).metas_untouched(),
            old(self).reliable() ==> r is Ok && final(self).written() == old(self).written() + buf@,
    {
        let r = write_all(&mut self.blob_writer, buf);
        assert(self.meta_writers@ == old(self).meta_writers@);
        r
    }
}

impl<S: Storage> Write for CacheWriter<S> {
    closed spec fn written(&self) -> Seq<u8> {
        self.blob_writer.written()
    }

    closed spec fn reliable(&self) -> bool {
        self.blob_writer.reliable()
    }

    closed spec fn target(&self) -> Seq<Seq<char>> {
        self.blob_writer.target()
    }

    closed spec fn flushed(&self) -> bool {
        self.blob_writer.flushed()
    }

    fn write(&mut self, buf: &[u8]) -> (r: Result<usize, IoError>)
        ensures
            final(self).meta_targets() == old(self).meta_targets(),
            final(self).record() == old(self).record(),
            final(self).metas_untouched() == old(self).metas_untouched(),
    {
        let r = self.blob_writer.write(buf);
        assert(self.meta_writers@ == old(self).meta_writers@);
        r
    }

    fn flush(&mut self) -> (r: Result<(), IoError>)
        ensures
            final(self).meta_targets() == old(self).meta_targets(),
            final(self).record() == old(self).record(),
            final(self).metas_untouched() == old(self).metas_untouched(),
    {
        let r = self.blob_writer.flush();
        assert(self.meta_writers@ == old(self).meta_writers@);
        r
    }
}

/// What the meta record in `file` says, if the file holds one.
pub open spec fn key_record(entries: Entries, file: SubdirFile) -> Option<KeyRecordView> {
    let content = file_content(entries, split_components(file.path@));
    if content.len() >= META_MAX_SIZE {
        match parse_meta(content.take(META_MAX_SIZE as int)) {
            Ok(fields) => Some(
                KeyRecordView {
                    name: file.name@,
                    blob_id: fields.blob_id,
                    latest_access: Timestamp::at(fields.secs, fields.nanos),
                },
            ),
            Err(_) => None,
        }
    } else {
        None
    }
}

/// What the meta records in `files` say, if each of the files holds one.
pub open spec fn key_records(entries: Entries, files: Seq<SubdirFile>) -> Option<
    Seq<KeyRecordView>,
>
    decreases files.len(),
{
    if files.len() == 0 {
        Some(seq![])
    } else {
        match (key_records(entries, files.drop_last()), key_record(entries, files.last())) {
            (Some(records), Some(record)) => Some(records.push(record)),
            _ => None,
        }
    }
}

/// The paths that are deleted for a blob: those of the meta records of its
/// keys, then that of the blob.
pub open spec fn paths_of(blob: BlobView) -> Seq<Seq<char>> {
    blob.keys.map_values(|key: Seq<char>| meta_path_text(key)).push(
        blob_path_text(blob.blob_id),
    )
}

/// The paths that are deleted for the first `n` of the blobs at the
/// positions `evicted`, in the order in which they are deleted.
pub open spec fn eviction_paths(blobs: Seq<BlobView>, evicted: Seq<usize>, n: int) -> Seq<
    Seq<char>,
>
    decreases n,
{
    if n <= 0 {
        seq![]
    } else {
        eviction_paths(blobs, evicted, n - 1) + paths_of(blobs[evicted[n - 1] as int])
    }
}

/// The deletion of `paths[from..]`, one after the other: the kind of the
/// error that ends it, if any, and what the storage holds afterwards.
pub open spec fn delete_all(entries: Entries, paths: Seq<Seq<char>>, from: int) -> (
    Option<ErrorKind>,
    Entries,
)
    decreases paths.len() - from,
{
    if from < 0 || from >= paths.len() {
        (None, entries)
    } else {
        match delete_error(entries, paths[from]) {
            Some(kind) => (Some(kind), entries),
            None => delete_all(
                without(entries, split_components(paths[from])),
                paths,
                from + 1,
            ),
        }
    }
}

/// Whether an eviction pass that found `blob_files` and `meta_files` and
/// evicted the blobs at the positions `evicted` ends with `r` and leaves
/// `after` in the storage.
///
/// A file below `/meta` that holds no meta record ends the pass with an
/// error before anything is deleted. Otherwise the blobs with their keys are
/// put together, those that have to go are chosen, and their paths are
/// deleted until one cannot be.
pub open spec fn is_eviction(
    entries: Entries,
    blob_files: Seq<SubdirFile>,
    meta_files: Seq<SubdirFile>,
    evicted: Seq<usize>,
    max_unused_age: Option<TimeDelta>,
    max_blob_size_sum: Option<u64>,
    now: Timestamp,
    r: IoPathResult<()>,
    after: Entries,
) -> bool {
    &&& files_below(blob_files, entries, "/blob"@)
    &&& files_below(meta_files, entries, "/meta"@)
    &&& match key_records(entries, meta_files) {
        None => r matches Err(e) && e.kind() == ErrorKind::InvalidData && after == entries,
        Some(records) => {
            let blobs = aggregated(records, blob_sizes(blob_files));
            let deleted = delete_all(
                entries,
                eviction_paths(blobs, evicted, evicted.len() as int),
                0,
            );
            &&& is_plan(keys_of(blobs), evicted, max_unused_age, max_blob_size_sum, now)
            &&& after == deleted.1
            &&& match deleted.0 {
                Some(kind) => r matches Err(e) && e.kind() == kind,
                None => r is Ok,
            }
        },
    }
}

/// What an eviction pass with at least one limit does to a reliable
/// storage. The files two levels below `/blob` and `/meta` may be found in
/// any order.
pub open spec fn cleaned(
    entries: Entries,
    max_unused_age: Option<TimeDelta>,
    max_blob_size_sum: Option<u64>,
    now: Timestamp,
    r: IoPathResult<()>,
    after: Entries,
) -> bool {
    match list_error(entries, "/blob"@) {
        Some(kind) => r matches Err(e) && e.kind() == kind && after == entries,
        None => match list_error(entries, "/meta"@) {
            Some(kind) => r matches Err(e) && e.kind() == kind && after == entries,
            None => exists|
                blob_files: Seq<SubdirFile>,
                meta_files: Seq<SubdirFile>,
                evicted: Seq<usize>,
            | #[trigger]
                is_eviction(
                    entries,
                    blob_files,
                    meta_files,
                    evicted,
                    max_unused_age,
                    max_blob_size_sum,
                    now,
                    r,
                    after,
                ),
        },
    }
}

/// Whether `r` and `after` are what opening a writer for the blob `blob_id`
/// and the keys `keys` at the time `now` gives.
pub open spec fn is_set<S: Storage>(
    entries: Entries,
    keys: Seq<Seq<char>>,
    blob_id: Seq<u8>,
    now: Timestamp,
    r: IoPathResult<CacheWriter<S>>,
    after: Entries,
) -> bool {
    &&& after == cache_set(entries, keys, blob_id).1
    &&& match cache_set(entries, keys, blob_id).0 {
        Some(kind) => r matches Err(e) && e.kind() == kind,
        None => r matches Ok(writer) && writer.reliable() && writer.written() == Seq::<u8>::empty()
            && writer.target() == blob_components(blob_id) && writer.meta_targets()
            == keys.map_values(|key: Seq<char>| meta_components(key)) && writer.metas_untouched()
            && writer.record() == (MetaFields { blob_id, secs: now.secs(), nanos: now.nanos() }),
    }
}

/// Whether `r` and `after` are what a lookup of `keys` at some point in
/// time gives on a reliable storage that holds `before`.
pub open spec fn looked_up<'a, T: Read>(
    before: Entries,
    after: Entries,
    keys: Seq<&'a str>,
    r: IoPathResult<Option<CacheHit<'a, T>>>,
) -> bool {
    exists|now: Timestamp|
        now.wf() && reports_get(r, keys, (#[trigger] cache_get(before, key_texts(keys), 0, now)).0)
            && after == cache_get(before, key_texts(keys), 0, now).1
}

/// Whether `r` and `after` are what a lookup of `keys` gives on a reliable
/// storage that holds `before`, at a point in time that `clock` may tell.
pub open spec fn looked_up_by<'a, C: Clock, T: Read>(
    clock: C,
    before: Entries,
    after: Entries,
    keys: Seq<&'a str>,
    r: IoPathResult<Option<CacheHit<'a, T>>>,
) -> bool {
    exists|now: Timestamp|
        clock.tells(now) && now.wf() && reports_get(
            r,
            keys,
            (#[trigger] cache_get(before, key_texts(keys), 0, now)).0,
        ) && after == cache_get(before, key_texts(keys), 0, now).1
}

/// Whether `r` and `after` are what opening a writer for `keys` gives on a
/// reliable storage that holds `before`, for a blob identifier that the
/// generator `rng` may give while it becomes `next`, and at a point in time
/// that `clock` may tell.
pub open spec fn opened_by<S: Storage, C: Clock, G: RngBytes>(
    clock: C,
    rng: G,
    next: G,
    before: Entries,
    after: Entries,
    keys: Seq<&str>,
    r: IoPathResult<CacheWriter<S>>,
) -> bool {
    exists|blob_id: Seq<u8>, now: Timestamp|
        rng.fills(&next, blob_id) && clock.tells(now) && blob_id.len() == BLOB_ID_SIZE && now.wf()
            && #[trigger] is_set(before, key_texts(keys), blob_id, now, r, after)
}

/// Whether `r` and `after` are what an eviction pass with the given limits
/// gives on a reliable storage that holds `before`, at a point in time that
/// `clock` may tell. Without a limit nothing is done.
pub open spec fn swept_by<C: Clock>(
    clock: C,
    before: Entries,
    after: Entries,
    max_unused_age: Option<TimeDelta>,
    max_blob_size_sum: Option<u64>,
    r: IoPathResult<()>,
) -> bool {
    if max_unused_age is None && max_blob_size_sum is None {
        r is Ok && after == before
    } else {
        exists|now: Timestamp|
            clock.tells(now) && now.wf() && #[trigger] cleaned(
                before,
                max_unused_age,
                max_blob_size_sum,
                now,
                r,
                after,
            )
    }
}

/// Whether `r` and `after` are what opening a writer for `keys` gives on a
/// reliable storage that holds `before`, for some new blob identifier and at
/// some time.
pub open spec fn opened<S: Storage>(
    before: Entries,
    after: Entries,
    keys: Seq<&str>,
    r: IoPathResult<CacheWriter<S>>,
) -> bool {
    exists|blob_id: Seq<u8>, now: Timestamp|
        blob_id.len() == BLOB_ID_SIZE && now.wf() && #[trigger] is_set(
            before,
            key_texts(keys),
            blob_id,
            now,
            r,
            after,
        )
}

/// Whether `r` and `after` are what closing `writer` gives on a reliable
/// storage that holds `before`.
pub open spec fn published<S: Storage>(
    before: Entries,
    after: Entries,
    writer: CacheWriter<S>,
    r: IoPathResult<()>,
) -> bool {
    let closed = cache_close(
        before,
        writer.target(),
        writer.written(),
        writer.meta_targets(),
        meta_bytes(writer.record()),
    );
    &&& after == closed.1
    &&& match closed.0 {
        Some(kind) => r matches Err(e) && e.kind() == kind,
        None => r is Ok,
    }
}

/// Whether `r` and `after` are what an eviction pass with the given limits
/// gives on a reliable storage that holds `before`, at some time. Without a
/// limit nothing is done.
pub open spec fn swept(
    before: Entries,
    after: Entries,
    max_unused_age: Option<TimeDelta>,
    max_blob_size_sum: Option<u64>,
    r: IoPathResult<()>,
) -> bool {
    if max_unused_age is None && max_blob_size_sum is None {
        r is Ok && after == before
    } else {
        exists|now: Timestamp|
            now.wf() && #[trigger] cleaned(before, max_unused_age, max_blob_size_sum, now, r, after)
    }
}

/// A local cache that stores data in a storage.
pub struct LocalCache<S: Storage, C: Clock, R: RngBytes> {
    storage: S,
    blob_id_factory: BlobIdFactory<R>,
    clock: C,
}

impl<S: Storage> LocalCache<S, SystemClock, ThreadRng> {
    /// Creates a new local cache that stores data in the given storage.
    pub fn new(storage: S) -> (cache: Self)
        requires
            sound(&storage),
        ensures
            cache.storage() == storage,
            cache.inv(),
    {
        Self::with_clock(storage, SystemClock)
    }
}

impl<S: Storage, R: RngBytes> LocalCache<S, SystemClock, R> {
    /// Creates a new local cache that stores data in the given storage and
    /// draws its blob identifiers from the given factory.
    pub fn with_blob_id_factory(storage: S, blob_id_factory: BlobIdFactory<R>) -> (cache: Self)
        requires
            sound(&storage),
        ensures
            cache.storage() == storage,
            cache.inv(),
    {
        Self { storage, blob_id_factory, clock: SystemClock }
    }
}

impl<S: Storage, C: Clock> LocalCache<S, C, ThreadRng> {
    /// Creates a new local cache that stores data in the given storage and
    /// reads the time from the given clock.
    pub fn with_clock(storage: S, clock: C) -> (cache: Self)
        requires
            sound(&storage),
        ensures
            cache.storage() == storage,
            cache.inv(),
    {
        Self { storage, blob_id_factory: BlobIdFactory::default(), clock }
    }
}

impl<S: Storage, C: Clock, R: RngBytes> LocalCache<S, C, R> {
    /// The storage of the cache.
    pub closed spec fn storage(&self) -> S {
        self.storage
    }

    /// The clock of the cache.
    pub closed spec fn clock(&self) -> C {
        self.clock
    }

    /// The factory that the cache draws the identifiers of its blobs from.
    pub closed spec fn blob_ids(&self) -> BlobIdFactory<R> {
        self.blob_id_factory
    }

    /// Whether `after` has the clock and the factory of this cache, as they
    /// are.
    pub open spec fn same_tools(&self, after: &Self) -> bool {
        after.clock() == self.clock() && after.blob_ids() == self.blob_ids()
    }

    /// What the cache needs to hold of itself: that its storage can be
    /// used.
    pub open spec fn inv(&self) -> bool {
        sound(&self.storage())
    }

    /// What the storage of the cache holds.
    pub open spec fn entries(&self) -> Entries {
        self.storage().entries()
    }

    /// Consumes the cache and returns the underlying storage.
    pub fn into_storage(self) -> (storage: S)
        ensures
            storage == self.storage(),
    {
        self.storage
    }

    /// The underlying storage.
    pub fn storage_ref(&self) -> (storage: &S)
        ensures
            *storage == self.storage(),
    {
        &self.storage
    }

    /// Reads the meta record at `path`.
    fn read_meta(&self, path: &str) -> (r: IoPathResult<Meta>)
        requires
            self.inv(),
        ensures
            self.storage().reliable() ==> (match get_error(self.entries(), path@) {
                Some(kind) => r matches Err(e) && e.kind() == kind,
                None => {
                    let content = file_content(self.entries(), split_components(path@));
                    if content.len() >= META_MAX_SIZE && parse_meta(
                        content.take(META_MAX_SIZE as int),
                    ) is Ok {
                        r matches Ok(meta) && Ok::<MetaFields, crate::cache::meta::DeserializationError>(meta.fields())
                            == parse_meta(content.take(META_MAX_SIZE as int))
                    } else {
                        r matches Err(e) && e.kind() == ErrorKind::InvalidData
                    }
                },
            }),
    {
        let mut reader = match self.storage.get(path) {
            Ok(handle) => handle.reader,
            Err(e) => {
                return Err(e);
            },
        };
        let data = match read_exact(&mut reader, META_MAX_SIZE) {
            Ok(data) => data,
            Err(e) => {
                return Err(IoPathError::new(e, path));
            },
        };
        match Meta::from_bytes(data.as_slice()) {
            Ok(meta) => Ok(meta),
            Err(_) => Err(
                IoPathError::new(
                    IoError::new(ErrorKind::InvalidData, "Deserialization error"),
                    path,
                ),
            ),
        }
    }

    /// Opens a writer for data that is to be stored under all of `keys`, as
    /// the blob `blob_id` and with `now` as the time of the last access.
    pub fn set_with(&mut self, keys: &[&str], blob_id: BlobId, now: Timestamp) -> (r: IoPathResult<
        CacheWriter<S>,
    >)
        requires
            old(self).inv(),
        ensures
            final(self).inv(),
            old(self).same_tools(final(self)),
            final(self).storage().reliable() == old(self).storage().reliable(),
            old(self).storage().reliable() ==> is_set(
                old(self).entries(),
                key_texts(keys@),
                blob_id@,
                now,
                r,
                final(self).entries(),
            ),
    {
        let ghost texts = key_texts(keys@);
        let ghost reliable = self.storage().reliable();
        let ghost start = self.entries();
        let meta = Meta::new(blob_id, now);
        proof {
            meta.lemma_fields();
        }
        let blob = blob_path(&blob_id);
        let blob_writer = match self.storage.put(blob.as_str()) {
            Ok(writer) => writer,
            Err(e) => {
                proof {
                    if reliable {
                        assert(self.entries() =~= start);
                    }
                }
                return Err(e);
            },
        };
        let ghost opened = self.entries();
        proof {
            if reliable {
                assert(opened =~= with_parents(start, blob_components(blob_id@)));
            }
        }
        let mut meta_writers: Vec<S::Writer> = Vec::new();
        let mut i: usize = 0;
        while i < keys.len()
            invariant
                old(self).same_tools(self),
                i <= keys.len(),
                self.inv(),
                texts == key_texts(keys@),
                self.storage().reliable() == reliable,
                reliable == old(self).storage().reliable(),
                start == old(self).entries(),
                meta_writers.len() == i,
                reliable ==> cache_set(start, texts, blob_id@) == open_metas(
                    self.entries(),
                    texts,
                    i as int,
                ),
                reliable ==> forall|j: int|
                    0 <= j < i ==> (#[trigger] meta_writers[j]).reliable() && meta_writers[j].written()
                        == Seq::<u8>::empty() && meta_writers[j].target() == meta_components(
                        texts[j],
                    ),
            decreases keys.len() - i,
        {
            let key = keys[i];
            let ghost before = self.entries();
            proof {
                assert(texts[i as int] == key@);
            }
            let path = meta_path(key);
            let writer = match self.storage.put(path.as_str()) {
                Ok(writer) => writer,
                Err(e) => {
                    proof {
                        if reliable {
                            assert(self.entries() =~= before);
                        }
                    }
                    return Err(e);
                },
            };
            proof {
                if reliable {
                    assert(self.entries() =~= with_parents(before, meta_components(key@)));
                }
            }
            meta_writers.push(writer);
            i += 1;
        }
        let writer = CacheWriter::new(blob_writer, meta_writers, meta);
        proof {
            if reliable {
                assert(writer.meta_targets() =~= texts.map_values(
                    |key: Seq<char>| meta_components(key),
                ));
            }
        }
        Ok(writer)
    }

    /// Publishes what was written to `writer`: the blob first, then the
    /// meta record of each key, in the order of the keys.
    pub fn close_writer(&mut self, writer: CacheWriter<S>) -> (r: IoPathResult<()>)
        requires
            old(self).inv(),
        ensures
            final(self).inv(),
            old(self).same_tools(final(self)),
            final(self).storage().reliable() == old(self).storage().reliable(),
            old(self).storage().reliable() && writer.reliable() && writer.metas_untouched()
                ==> published(old(self).entries(), final(self).entries(), writer, r),
    {
        let ghost exact = self.storage().reliable() && writer.reliable() && writer.metas_untouched();
        let ghost start = self.entries();
        let ghost targets = writer.meta_targets();
        let ghost record = meta_bytes(writer.record());
        let ghost goal = cache_close(start, writer.target(), writer.written(), targets, record);
        let CacheWriter { blob_writer, meta_writers, meta } = writer;
        let data = meta.to_bytes();
        match self.storage.close(blob_writer) {
            Ok(()) => {},
            Err(e) => {
                proof {
                    if exact {
                        assert(self.entries() =~= start);
                    }
                }
                return Err(e);
            },
        }
        proof {
            if exact {
                assert(self.entries() =~= with_file(start, writer.target(), writer.written()));
            }
        }
        let mut pending = meta_writers;
        let ghost total = pending.len();
        while pending.len() > 0
            invariant
                old(self).same_tools(self),
                self.inv(),
                exact == (old(self).storage().reliable() && writer.reliable()
                    && writer.metas_untouched()),
                pending.len() <= total,
                total == targets.len(),
                data@ == record,
                exact ==> self.storage().reliable(),
                self.storage().reliable() == old(self).storage().reliable(),
                goal == cache_close(
                    old(self).entries(),
                    writer.target(),
                    writer.written(),
                    writer.meta_targets(),
                    meta_bytes(writer.record()),
                ),
                exact ==> goal == close_metas(
                    self.entries(),
                    targets,
                    total - pending.len(),
                    record,
                ),
                exact ==> forall|j: int|
                    0 <= j < pending.len() ==> (#[trigger] pending[j]).reliable() && pending[j].written()
                        == Seq::<u8>::empty() && pending[j].target() == targets[total
                        - pending.len() + j],
            decreases pending.len(),
        {
            let ghost before = self.entries();
            let ghost rest = pending@;
            let mut meta_writer = pending.remove(0);
            proof {
                assert(meta_writer == rest[0]);
                assert forall|j: int| 0 <= j < pending.len() implies pending[j] == rest[j + 1] by {}
            }
            match write_all(&mut meta_writer, data.as_slice()) {
                Ok(()) => {},
                Err(e) => {
                    return Err(IoPathError::new_no_path(e));
                },
            }
            proof {
                if exact {
                    assert(meta_writer.written() =~= record);
                }
            }
            match self.storage.close(meta_writer) {
                Ok(()) => {},
                Err(e) => {
                    proof {
                        if exact {
                            assert(self.entries() =~= before);
                        }
                    }
                    return Err(e);
                },
            }
            proof {
                if exact {
                    let index = total - pending.len() - 1;
                    assert(self.entries() =~= with_file(before, targets[index], record));
                }
            }
        }
        Ok(())
    }

    /// Reads the meta records in `files`, which were found two levels below
    /// `/meta`.
    fn read_records(&self, files: &Vec<SubdirFile>) -> (r: IoPathResult<Vec<KeyRecord>>)
        requires
            self.inv(),
        ensures
            self.storage().reliable() && files_below(files@, self.entries(), "/meta"@) ==> (
            match key_records(self.entries(), files@) {
                Some(views) => r matches Ok(records) && record_views(records@) == views,
                None => r matches Err(e) && e.kind() == ErrorKind::InvalidData,
            }),
    {
        let ghost entries = self.entries();
        let ghost exact = self.storage().reliable() && files_below(files@, entries, "/meta"@);
        let mut records: Vec<KeyRecord> = Vec::new();
        let mut i: usize = 0;
        proof {
            assert(record_views(records@) =~= seq![]);
            assert(files@.take(0) =~= seq![]);
        }
        while i < files.len()
            invariant
                i <= files.len(),
                self.inv(),
                entries == self.entries(),
                exact == (self.storage().reliable() && files_below(files@, entries, "/meta"@)),
                exact ==> key_records(entries, files@.take(i as int)) == Some(
                    record_views(records@),
                ),
            decreases files.len() - i,
        {
            let file = &files[i];
            let ghost before = record_views(records@);
            proof {
                assert(files@.take(i + 1).drop_last() =~= files@.take(i as int));
                assert(files@.take(i + 1).last() == files[i as int]);
                if exact {
                    reveal_strlit("/meta");
                    lemma_path_of_file(entries, "/meta"@, files[i as int]);
                }
            }
            let meta = match self.read_meta(file.path.as_str()) {
                Ok(meta) => meta,
                Err(e) => {
                    proof {
                        if exact {
                            assert(key_record(entries, files[i as int]) is None);
                            lemma_records_missing(entries, files@, i as int);
                        }
                    }
                    return Err(e);
                },
            };
            let latest_access = match meta.latest_access() {
                Ok(latest_access) => latest_access,
                Err(_) => {
                    return Err(
                        IoPathError::new(
                            IoError::new(ErrorKind::InvalidData, "Deserialization error"),
                            file.path.as_str(),
                        ),
                    );
                },
            };
            let record = KeyRecord { name: file.name.clone(), blob_id: *meta.blob_id(), latest_access };
            proof {
                if exact {
                    meta.lemma_fields();
                    latest_access.lemma_same();
                    assert(Some(record@) == key_record(entries, files[i as int]));
                }
            }
            records.push(record);
            proof {
                assert(record_views(records@) =~= before.push(record@));
            }
            i += 1;
        }
        assert(files@.take(files.len() as int) =~= files@);
        Ok(records)
    }

    /// Runs an eviction pass at the time that the clock of the cache tells;
    /// see [`LocalCache::clean_at`].
    pub fn clean(&mut self, max_unused_age: Option<TimeDelta>, max_blob_size_sum: Option<u64>) -> (r:
        IoPathResult<()>)
        requires
            old(self).inv(),
        ensures
            final(self).inv(),
            old(self).same_tools(final(self)),
            final(self).storage().reliable() == old(self).storage().reliable(),
            max_unused_age is None && max_blob_size_sum is None ==> r is Ok
                && final(self).entries() == old(self).entries(),
            old(self).storage().reliable() ==> swept(
                old(self).entries(),
                final(self).entries(),
                max_unused_age,
                max_blob_size_sum,
                r,
            ) && swept_by(
                old(self).clock(),
                old(self).entries(),
                final(self).entries(),
                max_unused_age,
                max_blob_size_sum,
                r,
            ),
    {
        if max_unused_age.is_none() && max_blob_size_sum.is_none() {
            return Ok(());
        }
        let now = self.clock.now().checked();
        self.clean_at(max_unused_age, max_blob_size_sum, now)
    }

    /// Runs an eviction pass at the time `now`: deletes the blobs that have
    /// not been used for longer than `max_unused_age`, and the blobs that
    /// were used the longest ago until the blobs that stay take no more than
    /// `max_blob_size_sum` bytes. With each blob go the meta records of its
    /// keys; they are deleted first. Without a limit nothing is done.
    pub fn clean_at(
        &mut self,
        max_unused_age: Option<TimeDelta>,
        max_blob_size_sum: Option<u64>,
        now: Timestamp,
    ) -> (r: IoPathResult<()>)
        requires
            old(self).inv(),
        ensures
            final(self).inv(),
            old(self).same_tools(final(self)),
            final(self).storage().reliable() == old(self).storage().reliable(),
            max_unused_age is None && max_blob_size_sum is None ==> r is Ok
                && final(self).entries() == old(self).entries(),
            old(self).storage().reliable() && !(max_unused_age is None && max_blob_size_sum
                is None) ==> cleaned(
                old(self).entries(),
                max_unused_age,
                max_blob_size_sum,
                now,
                r,
                final(self).entries(),
            ),
    {
        if max_unused_age.is_none() && max_blob_size_sum.is_none() {
            return Ok(());
        }
        let ghost entries = self.entries();
        let ghost reliable = self.storage().reliable();
        let blob_files = match iter_subdir_files(&self.storage, "/blob") {
            Ok(files) => files,
            Err(e) => {
                return Err(e);
            },
        };
        let sizes = collect_blob_sizes(&blob_files);
        let meta_files = match iter_subdir_files(&self.storage, "/meta") {
            Ok(files) => files,
            Err(e) => {
                return Err(e);
            },
        };
        let records = match self.read_records(&meta_files) {
            Ok(records) => records,
            Err(e) => {
                proof {
                    if reliable {
                        assert(is_eviction(
                            entries,
                            blob_files@,
                            meta_files@,
                            Seq::<usize>::empty(),
                            max_unused_age,
                            max_blob_size_sum,
                            now,
                            Err::<(), IoPathError>(e),
                            entries,
                        ));
                    }
                }
                return Err(e);
            },
        };
        let ghost found = record_views(records@);
        let blobs = aggregate(records, &sizes);
        let evicted = plan_eviction(&blobs, max_unused_age, max_blob_size_sum, now);
        let paths = Self::paths_to_delete(&blobs, &evicted);
        let r = self.delete_paths(&paths);
        proof {
            if reliable {
                assert(is_eviction(
                    entries,
                    blob_files@,
                    meta_files@,
                    evicted@,
                    max_unused_age,
                    max_blob_size_sum,
                    now,
                    r,
                    self.entries(),
                ));
            }
        }
        r
    }

    /// The paths that are deleted for the blobs at the positions `evicted`.
    fn paths_to_delete(blobs: &Vec<Blob>, evicted: &Vec<usize>) -> (paths: Vec<String>)
        requires
            forall|p: int| 0 <= p < evicted.len() ==> (#[trigger] evicted[p]) < blobs.len(),
        ensures
            paths.deep_view() == eviction_paths(views(blobs@), evicted@, evicted.len() as int),
    {
        let mut paths: Vec<String> = Vec::new();
        let mut p: usize = 0;
        assert(paths.deep_view() =~= eviction_paths(views(blobs@), evicted@, 0));
        while p < evicted.len()
            invariant
                p <= evicted.len(),
                forall|q: int| 0 <= q < evicted.len() ==> (#[trigger] evicted[q]) < blobs.len(),
                paths.deep_view() == eviction_paths(views(blobs@), evicted@, p as int),
            decreases evicted.len() - p,
        {
            let blob = &blobs[evicted[p]];
            let ghost before = paths.deep_view();
            let ghost view = views(blobs@)[evicted[p as int] as int];
            assert(view == blob@);
            let mut k: usize = 0;
            while k < blob.keys.len()
                invariant
                    k <= blob.keys.len(),
                    view == blob@,
                    paths.deep_view() == before + view.keys.take(k as int).map_values(
                        |key: Seq<char>| meta_path_text(key),
                    ),
                decreases blob.keys.len() - k,
            {
                let path = meta_path(blob.keys[k].as_str());
                let ghost so_far = paths.deep_view();
                paths.push(path);
                proof {
                    assert(view.keys[k as int] == blob.keys[k as int]@);
                    assert(paths.deep_view() =~= so_far.push(path@));
                    assert(view.keys.take(k + 1).map_values(|key: Seq<char>| meta_path_text(key))
                        =~= view.keys.take(k as int).map_values(
                        |key: Seq<char>| meta_path_text(key),
                    ).push(meta_path_text(view.keys[k as int])));
                }
                k += 1;
            }
            let path = blob_path(&blob.blob_id);
            let ghost so_far = paths.deep_view();
            paths.push(path);
            proof {
                assert(view.keys.take(blob.keys.len() as int) =~= view.keys);
                assert(paths.deep_view() =~= so_far.push(path@));
                assert(paths.deep_view() =~= before + paths_of(view));
            }
            p += 1;
        }
        paths
    }

    /// Deletes the given paths, one after the other, until one cannot be
    /// deleted.
    fn delete_paths(&mut self, paths: &Vec<String>) -> (r: IoPathResult<()>)
        requires
            old(self).inv(),
        ensures
            final(self).inv(),
            old(self).same_tools(final(self)),
            final(self).storage().reliable() == old(self).storage().reliable(),
            old(self).storage().reliable() ==> final(self).entries() == delete_all(
                old(self).entries(),
                paths.deep_view(),
                0,
            ).1 && (match delete_all(old(self).entries(), paths.deep_view(), 0).0 {
                Some(kind) => r matches Err(e) && e.kind() == kind,
                None => r is Ok,
            }),
    {
        let ghost reliable = self.storage().reliable();
        let ghost goal = delete_all(self.entries(), paths.deep_view(), 0);
        let mut i: usize = 0;
        while i < paths.len()
            invariant
                old(self).same_tools(self),
                i <= paths.len(),
                self.inv(),
                self.storage().reliable() == reliable,
                reliable == old(self).storage().reliable(),
                goal == delete_all(old(self).entries(), paths.deep_view(), 0),
                reliable ==> goal == delete_all(self.entries(), paths.deep_view(), i as int),
            decreases paths.len() - i,
        {
            let ghost before = self.entries();
            proof {
                assert(paths.deep_view()[i as int] == paths[i as int]@);
            }
            match self.storage.delete(paths[i].as_str()) {
                Ok(()) => {},
                Err(e) => {
                    return Err(e);
                },
            }
            proof {
                if reliable {
                    assert(self.entries() =~= without(
                        before,
                        split_components(paths[i as int]@),
                    ));
                }
            }
            i += 1;
        }
        Ok(())
    }

    /// Looks the keys up at the time `now`: returns a reader for the data
    /// stored under the first of them that is found, or `None` if none is.
    pub fn get_at<'a>(&mut self, keys: &[&'a str], now: Timestamp) -> (r: IoPathResult<
        Option<CacheHit<'a, S::Reader>>,
    >)
        requires
            old(self).inv(),
        ensures
            final(self).inv(),
            old(self).same_tools(final(self)),
            final(self).storage().reliable() == old(self).storage().reliable(),
            r matches Ok(Some(hit)) ==> exists|i: int|
                0 <= i < keys.len() && (#[trigger] keys[i])@ == hit.key@,
            old(self).storage().reliable() ==> reports_get(
                r,
                keys@,
                cache_get(old(self).entries(), key_texts(keys@), 0, now).0,
            ) && final(self).entries() == cache_get(
                old(self).entries(),
                key_texts(keys@),
                0,
                now,
            ).1,
    {
        let ghost texts = key_texts(keys@);
        let ghost goal = cache_get(self.entries(), texts, 0, now);
        let ghost reliable = self.storage().reliable();
        let checked = now.checked();
        let mut i: usize = 0;
        while i < keys.len()
            invariant
                old(self).same_tools(self),
                i <= keys.len(),
                self.inv(),
                now.wf(),
                texts == key_texts(keys@),
                self.storage().reliable() == reliable,
                reliable == old(self).storage().reliable(),
                goal == cache_get(old(self).entries(), texts, 0, now),
                reliable ==> goal == cache_get(self.entries(), texts, i as int, now),
            decreases keys.len() - i,
        {
            let key: &'a str = keys[i];
            let ghost before = self.entries();
            proof {
                assert(texts[i as int] == key@);
            }
            let path = meta_path(key);
            match self.read_meta(path.as_str()) {
                Ok(found) => {
                    let mut meta = found;
                    let ghost fields = found.fields();
                    meta.set_latest_access(now);
                    let data = meta.to_bytes();
                    proof {
                        found.lemma_fields();
                        meta.lemma_fields();
                        assert(meta.fields() == used_at(fields, now));
                        if reliable {
                            lemma_store_over_file(before, meta_components(key@));
                        }
                    }
                    match write_file(&mut self.storage, path.as_str(), data.as_slice()) {
                        Ok(()) => {},
                        Err(e) => {
                            return Err(e);
                        },
                    }
                    let ghost after = self.entries();
                    proof {
                        if reliable {
                            assert(after =~= touched(before, key@, fields, now));
                        }
                    }
                    let blob = blob_path(meta.blob_id());
                    proof {
                        if reliable {
                            assert(key_state(before, key@) == KeyState::Record(fields));
                            assert(blob@ == blob_path_text(fields.blob_id));
                        }
                    }
                    match self.storage.get(blob.as_str()) {
                        Ok(handle) => {
                            proof {
                                if reliable {
                                    assert(cache_get(before, texts, i as int, now) == (
                                        GetOutcome::Hit {
                                            index: i as int,
                                            content: file_content(
                                                after,
                                                blob_components(fields.blob_id),
                                            ),
                                        },
                                        after,
                                    ));
                                }
                            }
                            return Ok(
                                Some(
                                    CacheHit {
                                        key,
                                        reader: handle.reader,
                                        size_hint: Some(handle.size_hint),
                                    },
                                ),
                            );
                        },
                        Err(e) => {
                            match e.io_error().kind() {
                                ErrorKind::NotFound => {},
                                _ => {
                                    return Err(e);
                                },
                            }
                        },
                    }
                },
                Err(e) => {
                    match e.io_error().kind() {
                        ErrorKind::NotFound => {
                            proof {
                                if reliable {
                                    assert(key_state(before, key@) is Absent);
                                }
                            }
                        },
                        _ => {
                            proof {
                                if reliable {
                                    let state = key_state(before, key@);
                                    assert(state is Unreadable || state is Corrupt);
                                    assert(cache_get(before, texts, i as int, now).0
                                        == GetOutcome::Failed(e.kind()));
                                }
                            }
                            return Err(e);
                        },
                    }
                },
            }
            i += 1;
        }
        Ok(None)
    }
}

impl<S: Storage, C: Clock, R: RngBytes> Cache for LocalCache<S, C, R> {
    type Reader = S::Reader;

    type Writer = CacheWriter<S>;

    open spec fn inv(&self) -> bool {
        sound(&self.storage())
    }

    /// A lookup leaves the storage as reliable as it was, and the clock and
    /// the factory as they were. In a reliable storage it finds what
    /// [`cache_get`] says, at a time that the clock of the cache may tell.
    open spec fn gets<'a>(
        &self,
        after: &Self,
        keys: Seq<&'a str>,
        r: IoPathResult<Option<CacheHit<'a, S::Reader>>>,
    ) -> bool {
        &&& after.storage().reliable() == self.storage().reliable()
        &&& self.same_tools(after)
        &&& self.storage().reliable() ==> looked_up(self.entries(), after.entries(), keys, r)
        &&& self.storage().reliable() ==> looked_up_by(
            self.clock(),
            self.entries(),
            after.entries(),
            keys,
            r,
        )
    }

    /// Opening a writer leaves the storage as reliable as it was, and the
    /// clock as it was. In a reliable storage it does what [`cache_set`]
    /// says, for a blob identifier that the generator of the cache may give
    /// and at a time that the clock of the cache may tell.
    open spec fn sets(&self, after: &Self, keys: Seq<&str>, r: IoPathResult<CacheWriter<S>>) -> bool {
        &&& after.storage().reliable() == self.storage().reliable()
        &&& after.clock() == self.clock()
        &&& self.storage().reliable() ==> opened(self.entries(), after.entries(), keys, r)
        &&& self.storage().reliable() ==> opened_by(
            self.clock(),
            self.blob_ids().rng(),
            after.blob_ids().rng(),
            self.entries(),
            after.entries(),
            keys,
            r,
        )
    }

    /// Closing a writer leaves the storage as reliable as it was. In a
    /// reliable storage, a reliable writer whose meta records have not been
    /// touched is published as [`cache_close`] says.
    open spec fn closes(&self, after: &Self, writer: CacheWriter<S>, r: IoPathResult<()>) -> bool {
        &&& after.storage().reliable() == self.storage().reliable()
        &&& self.same_tools(after)
        &&& self.storage().reliable() && writer.reliable() && writer.metas_untouched()
            ==> published(self.entries(), after.entries(), writer, r)
    }

    /// Looks the keys up at the current time; see [`LocalCache::get_at`].
    fn get<'a>(&mut self, keys: &[&'a str]) -> (r: IoPathResult<Option<CacheHit<'a, S::Reader>>>) {
        let now = self.clock.now().checked();
        self.get_at(keys, now)
    }

    /// Opens a writer for a blob with a new identifier, at the current
    /// time; see [`LocalCache::set_with`].
    fn set(&mut self, keys: &[&str]) -> (r: IoPathResult<CacheWriter<S>>) {
        let blob_id = self.blob_id_factory.new_id();
        let now = self.clock.now().checked();
        let r = self.set_with(keys, blob_id, now);
        proof {
            if old(self).storage().reliable() {
                assert(is_set(
                    old(self).entries(),
                    key_texts(keys@),
                    blob_id@,
                    now,
                    r,
                    self.entries(),
                ));
            }
        }
        r
    }

    /// Publishes what was written; see [`LocalCache::close_writer`].
    fn close(&mut self, writer: CacheWriter<S>) -> (r: IoPathResult<()>) {
        self.close_writer(writer)
    }
}

} // verus!
