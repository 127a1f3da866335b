//! What holds of a local cache on a reliable storage, over several calls.

use crate::cache::eviction::{
    budget, if_retained, is_plan, is_stale, key_le, keys_of, must_go, not_older, total_weight,
    BlobView, SortKey,
};
use crate::cache::inventory::{aggregated, find_blob, lemma_find_blob, with_key, KeyRecordView};
use crate::cache::blob_id::BLOB_ID_SIZE;
use crate::cache::local::{
    blob_components, blob_path_text, cache_close, cache_get, close_metas, delete_all,
    eviction_paths, file_content, is_set, key_state, key_texts, lemma_blob_and_meta_apart,
    lemma_blob_components, lemma_meta_components, looked_up, looked_up_by, meta_components,
    meta_path_text,
    opened, paths_of, published, reports_get, touched, used_at, CacheWriter, GetOutcome, KeyState,
};
use crate::cache::CacheHit;
use crate::cache::meta::{lemma_meta_round_trip, meta_bytes, parse_meta, MetaFields, META_MAX_SIZE};
use crate::error::{ErrorKind, IoPathError, IoPathResult};
use crate::storage::in_memory::path_iter::{is_absolute, is_component, split_components};
use crate::storage::{
    blocked_by_file, consistent, delete_error, get_error, is_file, is_proper_prefix, store_error,
    with_file, without, Components, Entries, EntryView, Storage,
};
use crate::util::io::{Read, Write};
use crate::util::clock::{Clock, TimeDelta, Timestamp};
use vstd::bytes::spec_u128_from_le_bytes;
use vstd::prelude::*;

verus! {

/// Whether `key` has a meta record that names a blob that can be read.
pub open spec fn resolves(entries: Entries, key: Seq<char>) -> bool {
    key_state(entries, key) matches KeyState::Record(fields) && get_error(
        entries,
        blob_path_text(fields.blob_id),
    ) is None
}

/// Whether a lookup of `key` ends with an error: what is in the place of its
/// meta record, or of the blob that the record names, cannot be read.
pub open spec fn is_broken(entries: Entries, key: Seq<char>) -> bool {
    match key_state(entries, key) {
        KeyState::Absent => false,
        KeyState::Unreadable(_) => true,
        KeyState::Corrupt => true,
        KeyState::Record(fields) => get_error(entries, blob_path_text(fields.blob_id)) is Some
            && get_error(entries, blob_path_text(fields.blob_id)) != Some(ErrorKind::NotFound),
    }
}

/// When the meta record of `key` says that the key was last used, in
/// nanoseconds; `None` if the key has no meta record.
pub open spec fn last_access(entries: Entries, key: Seq<char>) -> Option<int> {
    match key_state(entries, key) {
        KeyState::Record(fields) => Some(fields.secs * 1_000_000_000 + fields.nanos),
        _ => None,
    }
}

/// The paths of meta records start with `/`.
proof fn lemma_meta_path_absolute(key: Seq<char>)
    ensures
        is_absolute(meta_path_text(key)),
{
    reveal_strlit("/meta/");
    assert(meta_path_text(key)[0] == '/');
}

/// The paths of blobs start with `/`.
proof fn lemma_blob_path_absolute(blob_id: Seq<u8>)
    ensures
        is_absolute(blob_path_text(blob_id)),
{
    reveal_strlit("/blob/");
    assert(blob_path_text(blob_id)[0] == '/');
}

/// What a meta record that was marked as used is read as.
proof fn lemma_touched_record(fields: MetaFields, now: Timestamp)
    requires
        fields.blob_id.len() == 16,
        now.wf(),
    ensures
        meta_bytes(used_at(fields, now)).len() == META_MAX_SIZE,
        parse_meta(meta_bytes(used_at(fields, now))) == Ok::<
            MetaFields,
            crate::cache::meta::DeserializationError,
        >(used_at(fields, now)),
{
    lemma_meta_round_trip(used_at(fields, now));
}

/// A storage stays consistent when a file is written over a file.
pub proof fn lemma_overwrite_consistent(entries: Entries, path: Components, content: Seq<u8>)
    requires
        consistent(entries),
        is_file(entries(path)),
    ensures
        consistent(with_file(entries, path, content)),
{
    let after = with_file(entries, path, content);
    if path.len() == 0 {
        assert(path =~= seq![]);
    }
    assert(is_proper_prefix(seq![], path)) by {
        assert(path.take(0) =~= Seq::<Seq<char>>::empty());
    }
    assert forall|p: Components, q: Components|
        is_proper_prefix(p, q) && (#[trigger] after(q)) is Some implies #[trigger] after(p) == Some(
        EntryView::Directory,
    ) by {
        if q == path || is_proper_prefix(q, path) {
            assert(is_proper_prefix(p, path)) by {
                assert(path.take(p.len() as int) =~= path.take(q.len() as int).take(
                    p.len() as int,
                ));
            }
        } else if p == path {
            assert(entries(q) is Some);
            assert(entries(p) == Some(EntryView::Directory));
        } else if is_proper_prefix(p, path) {
        } else {
            assert(entries(q) is Some);
        }
    }
    assert forall|q: Components, i: int|
        (#[trigger] after(q)) is Some && 0 <= i < q.len() implies is_component(#[trigger] q[i]) by {
        if q == path {
        } else if is_proper_prefix(q, path) {
            assert(q[i] == path.take(q.len() as int)[i]);
            assert(is_component(path[i]));
        } else {
            assert(entries(q) is Some);
        }
    }
}

/// Marking the meta record of one key as used changes nothing about the
/// blobs, and of any key it changes at most the time of the last access:
/// a key has a meta record afterwards if and only if it had one before, and
/// the record names the same blob.
pub proof fn lemma_touch(
    entries: Entries,
    key: Seq<char>,
    fields: MetaFields,
    now: Timestamp,
    other: Seq<char>,
)
    requires
        consistent(entries),
        key_state(entries, key) == KeyState::Record(fields),
        now.wf(),
    ensures
        consistent(touched(entries, key, fields, now)),
        forall|blob_id: Seq<u8>| #[trigger]
            get_error(touched(entries, key, fields, now), blob_path_text(blob_id)) == get_error(
                entries,
                blob_path_text(blob_id),
            ),
        forall|blob_id: Seq<u8>|
            file_content(
                touched(entries, key, fields, now),
                #[trigger] blob_components(blob_id),
            ) == file_content(entries, blob_components(blob_id)),
        match key_state(entries, other) {
            KeyState::Record(old) => key_state(touched(entries, key, fields, now), other)
                == KeyState::Record(old) || key_state(touched(entries, key, fields, now), other)
                == KeyState::Record(used_at(old, now)),
            state => key_state(touched(entries, key, fields, now), other) == state,
        },
        key_state(touched(entries, key, fields, now), key) == KeyState::Record(
            used_at(fields, now),
        ),
{
    let after = touched(entries, key, fields, now);
    let target = meta_components(key);
    lemma_meta_path_absolute(key);
    lemma_meta_path_absolute(other);
    lemma_meta_components(key);
    lemma_meta_components(other);
    assert(is_file(entries(target)));
    lemma_overwrite_consistent(entries, target, meta_bytes(used_at(fields, now)));
    assert forall|blob_id: Seq<u8>| #[trigger]
        get_error(after, blob_path_text(blob_id)) == get_error(
            entries,
            blob_path_text(blob_id),
        ) by {
        lemma_blob_and_meta_apart(blob_id, key);
    }
    assert forall|blob_id: Seq<u8>|
        file_content(after, #[trigger] blob_components(blob_id)) == file_content(
            entries,
            blob_components(blob_id),
        ) by {
        lemma_blob_and_meta_apart(blob_id, key);
    }
    lemma_touched_record(fields, now);
    let content = meta_bytes(used_at(fields, now));
    assert(content.take(META_MAX_SIZE as int) =~= content);
    assert(after(target) == Some(EntryView::File(content)));
    let place = meta_components(other);
    if place == target {
        assert(key_state(entries, other) == KeyState::Record(fields));
    } else if is_proper_prefix(place, target) {
        assert(entries(place) == Some(EntryView::Directory));
        assert(after(place) == Some(EntryView::Directory));
    } else {
        assert(after(place) == entries(place));
    }
}

/// Whether the keys from `from` up to `to` are passed over by a lookup:
/// none of them has a meta record whose blob can be read, and none is
/// broken.
pub open spec fn passed_over(entries: Entries, keys: Seq<Seq<char>>, from: int, to: int) -> bool {
    forall|i: int|
        from <= i < to ==> !resolves(entries, #[trigger] keys[i]) && !is_broken(entries, keys[i])
}

/// **Preference order.** On a consistent storage, a lookup that ends with
/// a hit has found the first of the keys that has a meta record whose blob
/// can be read, and that blob is what the hit holds. A lookup that finds
/// none has passed over every key, none of which has such a record. A
/// lookup that ends with an error has come to a key that is broken, and has
/// passed over every key before it. Where no key has such a record and none
/// is broken, the lookup finds none.
pub proof fn law_preference_order(
    entries: Entries,
    keys: Seq<Seq<char>>,
    from: int,
    now: Timestamp,
)
    requires
        consistent(entries),
        now.wf(),
        0 <= from <= keys.len(),
    ensures
        consistent(cache_get(entries, keys, from, now).1),
        match cache_get(entries, keys, from, now).0 {
            GetOutcome::Hit { index, content } => from <= index < keys.len() && resolves(
                entries,
                keys[index],
            ) && (forall|j: int| from <= j < index ==> !resolves(entries, #[trigger] keys[j]))
                && (key_state(entries, keys[index]) matches KeyState::Record(fields) && content
                == file_content(entries, blob_components(fields.blob_id))),
            GetOutcome::Miss => forall|j: int|
                from <= j < keys.len() ==> !resolves(entries, #[trigger] keys[j]) && !is_broken(
                    entries,
                    keys[j],
                ),
            GetOutcome::Failed(_) => exists|j: int|
                from <= j < keys.len() && is_broken(entries, #[trigger] keys[j]) && passed_over(
                    entries,
                    keys,
                    from,
                    j,
                ),
        },
        (forall|j: int|
            from <= j < keys.len() ==> !resolves(entries, #[trigger] keys[j]) && !is_broken(
                entries,
                keys[j],
            )) ==> cache_get(entries, keys, from, now).0 is Miss,
    decreases keys.len() - from,
{
    if from < keys.len() {
        let key = keys[from];
        match key_state(entries, key) {
            KeyState::Absent => {
                law_preference_order(entries, keys, from + 1, now);
                if cache_get(entries, keys, from, now).0 is Failed {
                    let j = choose|j: int|
                        from + 1 <= j < keys.len() && is_broken(entries, #[trigger] keys[j])
                            && passed_over(entries, keys, from + 1, j);
                    assert(passed_over(entries, keys, from, j));
                }
            },
            KeyState::Unreadable(_) => {
                assert(is_broken(entries, keys[from]) && passed_over(entries, keys, from, from));
            },
            KeyState::Corrupt => {
                assert(is_broken(entries, keys[from]) && passed_over(entries, keys, from, from));
            },
            KeyState::Record(fields) => {
                let after = touched(entries, key, fields, now);
                lemma_touch(entries, key, fields, now, key);
                assert(get_error(after, blob_path_text(fields.blob_id)) == get_error(
                    entries,
                    blob_path_text(fields.blob_id),
                ));
                assert(file_content(after, blob_components(fields.blob_id)) == file_content(
                    entries,
                    blob_components(fields.blob_id),
                ));
                match get_error(after, blob_path_text(fields.blob_id)) {
                    None => {},
                    Some(ErrorKind::NotFound) => {
                        law_preference_order(after, keys, from + 1, now);
                        assert forall|j: int| from + 1 <= j < keys.len() implies (resolves(
                            after,
                            #[trigger] keys[j],
                        ) == resolves(entries, keys[j]) && is_broken(after, keys[j]) == is_broken(
                            entries,
                            keys[j],
                        ) && (key_state(entries, keys[j]) matches KeyState::Record(old)
                            ==> key_state(after, keys[j]) matches KeyState::Record(new)
                            && new.blob_id == old.blob_id)) by {
                            lemma_touch(entries, key, fields, now, keys[j]);
                        }
                        if cache_get(entries, keys, from, now).0 is Failed {
                            let j = choose|j: int|
                                from + 1 <= j < keys.len() && is_broken(after, #[trigger] keys[j])
                                    && passed_over(after, keys, from + 1, j);
                            assert(is_broken(entries, keys[j]));
                            assert(passed_over(entries, keys, from, j));
                        }
                    },
                    Some(_) => {
                        assert(is_broken(entries, keys[from]) && passed_over(
                            entries,
                            keys,
                            from,
                            from,
                        ));
                    },
                }
            },
        }
    }
}

/// **Round trip.** Where a cache entry was published on a consistent
/// storage without an error, as the blob `blob_id` with the content
/// `content`, a lookup of any of its keys finds that content.
pub proof fn law_round_trip(
    entries: Entries,
    keys: Seq<Seq<char>>,
    blob_id: Seq<u8>,
    written_at: Timestamp,
    content: Seq<u8>,
    index: int,
    now: Timestamp,
)
    requires
        blob_id.len() == 16,
        written_at.wf(),
        0 <= index < keys.len(),
        cache_close(
            entries,
            blob_components(blob_id),
            content,
            keys.map_values(|key: Seq<char>| meta_components(key)),
            meta_bytes(MetaFields { blob_id, secs: written_at.secs(), nanos: written_at.nanos() }),
        ).0 is None,
    ensures
        cache_get(
            cache_close(
                entries,
                blob_components(blob_id),
                content,
                keys.map_values(|key: Seq<char>| meta_components(key)),
                meta_bytes(
                    MetaFields { blob_id, secs: written_at.secs(), nanos: written_at.nanos() },
                ),
            ).1,
            seq![keys[index]],
            0,
            now,
        ).0 == (GetOutcome::Hit { index: 0, content }),
{
    let record = MetaFields { blob_id, secs: written_at.secs(), nanos: written_at.nanos() };
    let bytes = meta_bytes(record);
    let targets = keys.map_values(|key: Seq<char>| meta_components(key));
    let blob = blob_components(blob_id);
    let start = with_file(entries, blob, content);
    let published = close_metas(start, targets, 0, bytes).1;
    assert forall|j: int| 0 <= j < targets.len() implies #[trigger] targets[j] != blob
        && !is_proper_prefix(targets[j], blob) && !is_proper_prefix(blob, targets[j])
        && targets[j].len() > 0 by {
        lemma_blob_and_meta_apart(blob_id, keys[j]);
        lemma_meta_components(keys[j]);
    }
    lemma_published(start, targets, 0, bytes, blob);
    lemma_meta_round_trip(record);
    let key = keys[index];
    assert(targets[index] == meta_components(key));
    lemma_meta_path_absolute(key);
    lemma_meta_components(key);
    lemma_blob_path_absolute(blob_id);
    lemma_blob_components(blob_id);
    assert(bytes.take(META_MAX_SIZE as int) =~= bytes);
    assert(key_state(published, key) == KeyState::Record(record));
    let after = touched(published, key, record, now);
    lemma_blob_and_meta_apart(blob_id, key);
    assert(after(blob) == published(blob));
    assert(seq![key][0] == key);
}

/// What a storage holds after meta records were published without an
/// error: the record at each of the paths, and what it held before at every
/// path that is apart from them.
proof fn lemma_published(
    entries: Entries,
    targets: Seq<Components>,
    from: int,
    record: Seq<u8>,
    apart: Components,
)
    requires
        0 <= from <= targets.len(),
        close_metas(entries, targets, from, record).0 is None,
        forall|j: int|
            0 <= j < targets.len() ==> #[trigger] targets[j] != apart && !is_proper_prefix(
                targets[j],
                apart,
            ) && !is_proper_prefix(apart, targets[j]) && targets[j].len() > 0,
    ensures
        close_metas(entries, targets, from, record).1(apart) == entries(apart),
        forall|j: int|
            from <= j < targets.len() ==> close_metas(entries, targets, from, record).1(
                #[trigger] targets[j],
            ) == Some(EntryView::File(record)),
    decreases targets.len() - from,
{
    if from < targets.len() {
        let target = targets[from];
        let next = with_file(entries, target, record);
        lemma_published(next, targets, from + 1, record, apart);
        let last = close_metas(next, targets, from + 1, record).1;
        lemma_stays_published(next, targets, from + 1, record, target);
    }
}

/// A file that was published stays what it is while more meta records are
/// published without an error.
proof fn lemma_stays_published(
    entries: Entries,
    targets: Seq<Components>,
    from: int,
    record: Seq<u8>,
    path: Components,
)
    requires
        0 <= from <= targets.len(),
        close_metas(entries, targets, from, record).0 is None,
        entries(path) == Some(EntryView::File(record)),
        path.len() > 0,
    ensures
        close_metas(entries, targets, from, record).1(path) == Some(EntryView::File(record)),
    decreases targets.len() - from,
{
    if from < targets.len() {
        let target = targets[from];
        let next = with_file(entries, target, record);
        assert(store_error(entries, target) is None);
        if is_proper_prefix(path, target) {
            assert(target.take(path.len() as int) == path);
            assert(is_file(entries(target.take(path.len() as int))));
            assert(blocked_by_file(entries, target));
        }
        assert(next(path) == Some(EntryView::File(record)));
        lemma_stays_published(next, targets, from + 1, record, path);
    }
}

/// **Last access.** A lookup at the time `now` leaves every key with a
/// meta record if and only if it had one, and never sets the last access of
/// a key back: where the record of a key was not ahead of `now`, its last
/// access afterwards is no earlier than before, and not ahead of `now`.
/// Lookups at times that do not go back therefore never set the last access
/// of a key back.
pub proof fn law_last_access_monotonic(
    entries: Entries,
    keys: Seq<Seq<char>>,
    from: int,
    now: Timestamp,
    key: Seq<char>,
)
    requires
        consistent(entries),
        now.wf(),
        0 <= from <= keys.len(),
        last_access(entries, key) matches Some(t) ==> t <= now.total_nanos(),
    ensures
        match last_access(entries, key) {
            Some(before) => last_access(cache_get(entries, keys, from, now).1, key) matches Some(
                after,
            ) && before <= after <= now.total_nanos(),
            None => last_access(cache_get(entries, keys, from, now).1, key) is None,
        },
    decreases keys.len() - from,
{
    if from < keys.len() {
        let current = keys[from];
        match key_state(entries, current) {
            KeyState::Absent => {
                law_last_access_monotonic(entries, keys, from + 1, now, key);
            },
            KeyState::Record(fields) => {
                let after = touched(entries, current, fields, now);
                lemma_touch(entries, current, fields, now, key);
                match get_error(after, blob_path_text(fields.blob_id)) {
                    Some(ErrorKind::NotFound) => {
                        law_last_access_monotonic(after, keys, from + 1, now, key);
                    },
                    _ => {},
                }
            },
            _ => {},
        }
    }
}

/// Whether one of `blobs` has the identifier that is read as `number` and
/// `name` among its keys.
pub open spec fn holds_key(blobs: Seq<BlobView>, number: u128, name: Seq<char>) -> bool {
    exists|p: int|
        0 <= p < blobs.len() && spec_u128_from_le_bytes((#[trigger] blobs[p]).blob_id) == number
            && blobs[p].keys.contains(name)
}

/// Whether one of `records` is the meta record of the key `name` and names
/// the blob whose identifier is read as `number`.
pub open spec fn has_record(records: Seq<KeyRecordView>, number: u128, name: Seq<char>) -> bool {
    exists|i: int|
        0 <= i < records.len() && (#[trigger] records[i]).name == name && spec_u128_from_le_bytes(
            records[i].blob_id,
        ) == number
}

/// Whether the blobs were put together from the meta records as they
/// should be: no two blobs have the same identifier, every blob has a size
/// and at least one key, the keys of a blob are those whose meta records
/// name it, and every key whose meta record names a blob with a size is
/// among the keys of that blob.
pub open spec fn keys_with_their_blobs(
    records: Seq<KeyRecordView>,
    sizes: Map<u128, u64>,
    blobs: Seq<BlobView>,
) -> bool {
    &&& forall|p: int, q: int|
        0 <= p < q < blobs.len() ==> spec_u128_from_le_bytes((#[trigger] blobs[p]).blob_id)
            != spec_u128_from_le_bytes((#[trigger] blobs[q]).blob_id)
    &&& forall|p: int|
        0 <= p < blobs.len() ==> sizes.contains_key(
            spec_u128_from_le_bytes((#[trigger] blobs[p]).blob_id),
        ) && blobs[p].size == sizes[spec_u128_from_le_bytes(blobs[p].blob_id)]
            && blobs[p].keys.len() > 0
    &&& forall|p: int, k: int|
        0 <= p < blobs.len() && 0 <= k < blobs[p].keys.len() ==> has_record(
            records,
            spec_u128_from_le_bytes(blobs[p].blob_id),
            #[trigger] blobs[p].keys[k],
        )
    &&& forall|i: int|
        0 <= i < records.len() && sizes.contains_key(
            spec_u128_from_le_bytes((#[trigger] records[i]).blob_id),
        ) ==> holds_key(blobs, spec_u128_from_le_bytes(records[i].blob_id), records[i].name)
}

/// **Eviction keeps keys and blobs together.** The blobs that an eviction
/// pass puts together from the meta records have, each under its identifier
/// alone, exactly the keys whose meta records name them. Since a blob is
/// deleted together with the meta records of its keys, and after them, the
/// keys that a pass removes are those of the blobs that it removes, and no
/// key is left whose meta record names a blob that the pass removed.
pub proof fn law_keys_with_their_blobs(records: Seq<KeyRecordView>, sizes: Map<u128, u64>)
    ensures
        keys_with_their_blobs(records, sizes, aggregated(records, sizes)),
    decreases records.len(),
{
    if records.len() > 0 {
        let head = records.drop_last();
        let record = records.last();
        let before = aggregated(head, sizes);
        let after = aggregated(records, sizes);
        let number = spec_u128_from_le_bytes(record.blob_id);
        law_keys_with_their_blobs(head, sizes);
        lemma_find_blob(before, number);
        assert(after == with_key(before, record, sizes));
        assert forall|n: u128, name: Seq<char>| has_record(head, n, name) implies has_record(
            records,
            n,
            name,
        ) by {
            let i = choose|i: int|
                0 <= i < head.len() && (#[trigger] head[i]).name == name && spec_u128_from_le_bytes(
                    head[i].blob_id,
                ) == n;
            assert(records[i] == head[i]);
        }
        assert(has_record(records, number, record.name)) by {
            assert(records[records.len() - 1] == record);
        }
        if !sizes.contains_key(number) {
            assert(after == before);
            assert forall|i: int|
                0 <= i < records.len() && sizes.contains_key(
                    spec_u128_from_le_bytes((#[trigger] records[i]).blob_id),
                ) implies holds_key(
                after,
                spec_u128_from_le_bytes(records[i].blob_id),
                records[i].name,
            ) by {
                assert(records[i] == head[i]);
            }
        } else {
            match find_blob(before, number) {
                Some(p) => {
                    assert(after.len() == before.len());
                    assert forall|q: int| 0 <= q < after.len() implies (#[trigger] after[q]).blob_id
                        == before[q].blob_id && after[q].size == before[q].size by {}
                    assert forall|q: int, k: int|
                        0 <= q < after.len() && 0 <= k < after[q].keys.len() implies has_record(
                        records,
                        spec_u128_from_le_bytes(after[q].blob_id),
                        #[trigger] after[q].keys[k],
                    ) by {
                        if q == p && k == before[p].keys.len() {
                        } else {
                            assert(after[q].keys[k] == before[q].keys[k]);
                            assert(has_record(
                                head,
                                spec_u128_from_le_bytes(before[q].blob_id),
                                before[q].keys[k],
                            ));
                        }
                    }
                    assert forall|n: u128, name: Seq<char>| holds_key(before, n, name) implies holds_key(
                        after,
                        n,
                        name,
                    ) by {
                        let q = choose|q: int|
                            0 <= q < before.len() && spec_u128_from_le_bytes(
                                (#[trigger] before[q]).blob_id,
                            ) == n && before[q].keys.contains(name);
                        let k = choose|k: int| 0 <= k < before[q].keys.len() && before[q].keys[k] == name;
                        assert(after[q].keys[k] == name);
                        assert(after[q].blob_id == before[q].blob_id);
                    }
                    assert(holds_key(after, number, record.name)) by {
                        assert(after[p].keys[before[p].keys.len() as int] == record.name);
                        assert(after[p].blob_id == before[p].blob_id);
                    }
                    assert forall|i: int|
                        0 <= i < records.len() && sizes.contains_key(
                            spec_u128_from_le_bytes((#[trigger] records[i]).blob_id),
                        ) implies holds_key(
                        after,
                        spec_u128_from_le_bytes(records[i].blob_id),
                        records[i].name,
                    ) by {
                        if i < head.len() {
                            assert(records[i] == head[i]);
                            assert(holds_key(
                                before,
                                spec_u128_from_le_bytes(head[i].blob_id),
                                head[i].name,
                            ));
                        }
                    }
                },
                None => {
                    let last = before.len() as int;
                    assert(after.len() == before.len() + 1);
                    assert forall|q: int| 0 <= q < before.len() implies #[trigger] after[q]
                        == before[q] by {}
                    assert(after[last].keys.len() == 1);
                    assert(after[last].keys[0] == record.name);
                    assert forall|q: int, k: int|
                        0 <= q < after.len() && 0 <= k < after[q].keys.len() implies has_record(
                        records,
                        spec_u128_from_le_bytes(after[q].blob_id),
                        #[trigger] after[q].keys[k],
                    ) by {
                        if q < last {
                            assert(has_record(
                                head,
                                spec_u128_from_le_bytes(before[q].blob_id),
                                before[q].keys[k],
                            ));
                        }
                    }
                    assert forall|n: u128, name: Seq<char>| holds_key(before, n, name) implies holds_key(
                        after,
                        n,
                        name,
                    ) by {
                        let q = choose|q: int|
                            0 <= q < before.len() && spec_u128_from_le_bytes(
                                (#[trigger] before[q]).blob_id,
                            ) == n && before[q].keys.contains(name);
                        assert(after[q] == before[q]);
                    }
                    assert(holds_key(after, number, record.name)) by {
                        assert(after[last].keys.contains(record.name));
                    }
                    assert forall|i: int|
                        0 <= i < records.len() && sizes.contains_key(
                            spec_u128_from_le_bytes((#[trigger] records[i]).blob_id),
                        ) implies holds_key(
                        after,
                        spec_u128_from_le_bytes(records[i].blob_id),
                        records[i].name,
                    ) by {
                        if i < head.len() {
                            assert(records[i] == head[i]);
                            assert(holds_key(
                                before,
                                spec_u128_from_le_bytes(head[i].blob_id),
                                head[i].name,
                            ));
                        }
                    }
                },
            }
        }
    }
}

/// Whether `q` is the path of the blob or of the meta record of one of its
/// keys.
pub open spec fn goes_with(blob: BlobView, q: Components) -> bool {
    q == blob_components(blob.blob_id) || exists|k: int|
        0 <= k < blob.keys.len() && q == meta_components(#[trigger] blob.keys[k])
}

/// Whether `q` is the path of one of the blobs at the positions `evicted`,
/// or of the meta record of one of its keys.
pub open spec fn is_evicted_path(blobs: Seq<BlobView>, evicted: Seq<usize>, q: Components) -> bool {
    exists|p: int| 0 <= p < evicted.len() && goes_with(blobs[(#[trigger] evicted[p]) as int], q)
}

/// Whether one of `paths[from..]` leads to `q`.
pub open spec fn is_among(paths: Seq<Seq<char>>, from: int, q: Components) -> bool {
    exists|i: int| from <= i < paths.len() && split_components(#[trigger] paths[i]) == q
}

/// Where paths are deleted one after the other without an error, nothing is
/// left at any of them, and everything else stays as it was.
pub proof fn lemma_deleted(entries: Entries, paths: Seq<Seq<char>>, from: int, q: Components)
    requires
        0 <= from,
        delete_all(entries, paths, from).0 is None,
    ensures
        delete_all(entries, paths, from).1(q) == (if is_among(paths, from, q) {
            None
        } else {
            entries(q)
        }),
    decreases paths.len() - from,
{
    if from < paths.len() {
        let next = without(entries, split_components(paths[from]));
        lemma_deleted(next, paths, from + 1, q);
        if is_among(paths, from + 1, q) {
            let i = choose|i: int|
                from + 1 <= i < paths.len() && split_components(#[trigger] paths[i]) == q;
            assert(from <= i < paths.len() && split_components(paths[i]) == q);
        } else if split_components(paths[from]) == q {
        } else {
            if is_among(paths, from, q) {
                let i = choose|i: int|
                    from <= i < paths.len() && split_components(#[trigger] paths[i]) == q;
                assert(from + 1 <= i);
            }
        }
    }
}

/// The paths that are deleted for blobs are those of the blobs and of the
/// meta records of their keys.
proof fn lemma_eviction_paths(blobs: Seq<BlobView>, evicted: Seq<usize>, n: int, q: Components)
    requires
        0 <= n <= evicted.len(),
    ensures
        is_among(eviction_paths(blobs, evicted, n), 0, q) <==> exists|p: int|
            0 <= p < n && goes_with(blobs[(#[trigger] evicted[p]) as int], q),
    decreases n,
{
    if n > 0 {
        let head = eviction_paths(blobs, evicted, n - 1);
        let blob = blobs[evicted[n - 1] as int];
        let tail = paths_of(blob);
        let all = eviction_paths(blobs, evicted, n);
        assert(all == head + tail);
        lemma_eviction_paths(blobs, evicted, n - 1, q);
        assert(is_among(tail, 0, q) <==> goes_with(blob, q)) by {
            if goes_with(blob, q) {
                if q == blob_components(blob.blob_id) {
                    assert(split_components(tail[tail.len() - 1]) == q);
                } else {
                    let k = choose|k: int|
                        0 <= k < blob.keys.len() && q == meta_components(#[trigger] blob.keys[k]);
                    assert(split_components(tail[k]) == q);
                }
            }
            if is_among(tail, 0, q) {
                let i = choose|i: int|
                    0 <= i < tail.len() && split_components(#[trigger] tail[i]) == q;
                if i < blob.keys.len() {
                    assert(q == meta_components(blob.keys[i]));
                }
            }
        }
        if is_among(all, 0, q) {
            let i = choose|i: int| 0 <= i < all.len() && split_components(#[trigger] all[i]) == q;
            if i < head.len() {
                assert(all[i] == head[i]);
                assert(is_among(head, 0, q));
                let p = choose|p: int|
                    0 <= p < n - 1 && goes_with(blobs[(#[trigger] evicted[p]) as int], q);
                assert(0 <= p < n && goes_with(blobs[evicted[p] as int], q));
            } else {
                assert(all[i] == tail[i - head.len()]);
                assert(split_components(tail[i - head.len()]) == q);
                assert(is_among(tail, 0, q));
                assert(goes_with(blobs[evicted[n - 1] as int], q));
            }
        }
        if exists|p: int| 0 <= p < n && goes_with(blobs[(#[trigger] evicted[p]) as int], q) {
            let p = choose|p: int| 0 <= p < n && goes_with(blobs[(#[trigger] evicted[p]) as int], q);
            if p < n - 1 {
                assert(is_among(head, 0, q));
                let i = choose|i: int|
                    0 <= i < head.len() && split_components(#[trigger] head[i]) == q;
                assert(all[i] == head[i]);
                assert(split_components(all[i]) == q);
            } else {
                assert(is_among(tail, 0, q));
                let i = choose|i: int|
                    0 <= i < tail.len() && split_components(#[trigger] tail[i]) == q;
                assert(all[head.len() + i] == tail[i]);
                assert(split_components(all[head.len() + i]) == q);
            }
        }
    } else {
        assert(eviction_paths(blobs, evicted, n).len() == 0);
    }
}

/// **Eviction takes blobs with their keys.** Where an eviction pass deletes
/// the blobs at the positions `evicted` without an error, nothing is left
/// of these blobs and of the meta records of their keys, and everything
/// else in the storage stays as it was: a key goes if and only if its blob
/// goes.
pub proof fn law_eviction_takes_blobs_with_their_keys(
    entries: Entries,
    blobs: Seq<BlobView>,
    evicted: Seq<usize>,
    q: Components,
)
    requires
        delete_all(entries, eviction_paths(blobs, evicted, evicted.len() as int), 0).0 is None,
    ensures
        delete_all(entries, eviction_paths(blobs, evicted, evicted.len() as int), 0).1(q) == (
        if is_evicted_path(blobs, evicted, q) {
            None
        } else {
            entries(q)
        }),
{
    let paths = eviction_paths(blobs, evicted, evicted.len() as int);
    lemma_deleted(entries, paths, 0, q);
    lemma_eviction_paths(blobs, evicted, evicted.len() as int, q);
}

/// **The first key wins, for every cache on a reliable storage.** Where a
/// lookup of `keys` on a consistent storage gave `r`, a hit is for the first
/// of the keys that has a meta record whose blob can be read, and holds what
/// that blob holds; no key that comes later wins. Nothing is found if and
/// only if no key has such a record, as long as no key is broken; an error
/// comes only with a key that is broken, and that key stands before every
/// key that has such a record.
pub proof fn law_lookup_finds_the_first_key<'a, R: Read>(
    before: Entries,
    after: Entries,
    keys: Seq<&'a str>,
    r: IoPathResult<Option<CacheHit<'a, R>>>,
)
    requires
        consistent(before),
        looked_up(before, after, keys, r),
    ensures
        consistent(after),
        match r {
            Ok(Some(hit)) => exists|index: int|
                0 <= index < keys.len() && hit.key@ == keys[index]@ && resolves(
                    before,
                    (#[trigger] keys[index])@,
                ) && (forall|j: int| 0 <= j < index ==> !resolves(before, (#[trigger] keys[j])@))
                    && (key_state(before, keys[index]@) matches KeyState::Record(fields)
                    && hit.reader.remaining() == file_content(
                    before,
                    blob_components(fields.blob_id),
                )),
            Ok(None) => forall|j: int|
                0 <= j < keys.len() ==> !resolves(before, (#[trigger] keys[j])@) && !is_broken(
                    before,
                    keys[j]@,
                ),
            Err(_) => exists|j: int|
                0 <= j < keys.len() && is_broken(before, (#[trigger] keys[j])@) && forall|i: int|
                    0 <= i < j ==> !resolves(before, (#[trigger] keys[i])@) && !is_broken(
                        before,
                        keys[i]@,
                    ),
        },
        (forall|j: int|
            0 <= j < keys.len() ==> !resolves(before, (#[trigger] keys[j])@) && !is_broken(
                before,
                keys[j]@,
            )) ==> r matches Ok(None),
{
    let texts = key_texts(keys);
    let now = choose|now: Timestamp|
        now.wf() && reports_get(r, keys, (#[trigger] cache_get(before, texts, 0, now)).0) && after
            == cache_get(before, texts, 0, now).1;
    law_preference_order(before, texts, 0, now);
    assert forall|j: int| 0 <= j < keys.len() implies texts[j] == (#[trigger] keys[j])@ by {}
    match cache_get(before, texts, 0, now).0 {
        GetOutcome::Hit { index, content } => {
            assert(texts[index] == keys[index]@);
            assert forall|j: int| 0 <= j < index implies !resolves(before, (#[trigger] keys[j])@) by {
                assert(!resolves(before, texts[j]));
            }
        },
        GetOutcome::Miss => {
            assert forall|j: int| 0 <= j < keys.len() implies !resolves(
                before,
                (#[trigger] keys[j])@,
            ) && !is_broken(before, keys[j]@) by {
                assert(!resolves(before, texts[j]) && !is_broken(before, texts[j]));
            }
        },
        GetOutcome::Failed(_) => {
            let j = choose|j: int|
                0 <= j < texts.len() && is_broken(before, #[trigger] texts[j]) && passed_over(
                    before,
                    texts,
                    0,
                    j,
                );
            assert(is_broken(before, keys[j]@));
            assert forall|i: int| 0 <= i < j implies !resolves(before, (#[trigger] keys[i])@)
                && !is_broken(before, keys[i]@) by {
                assert(!resolves(before, texts[i]) && !is_broken(before, texts[i]));
            }
        },
    }
    if forall|j: int|
        0 <= j < keys.len() ==> !resolves(before, (#[trigger] keys[j])@) && !is_broken(
            before,
            keys[j]@,
        ) {
        assert forall|j: int| 0 <= j < texts.len() implies !resolves(before, #[trigger] texts[j])
            && !is_broken(before, texts[j]) by {
            assert(texts[j] == keys[j]@);
        }
    }
}

/// **What is stored is found, for every cache on a reliable storage.**
/// Where a writer was opened for `keys`, was closed without an error after
/// any writes to it, and one of the keys is looked up in what the storage
/// then holds, the lookup finds that key, and its reader holds exactly what
/// was written.
pub proof fn law_stored_is_found<'a, S: Storage, R: Read>(
    start: Entries,
    opened_at: Entries,
    keys: Seq<&str>,
    writer: CacheWriter<S>,
    filled: CacheWriter<S>,
    published_at: Entries,
    index: int,
    after: Entries,
    r: IoPathResult<Option<CacheHit<'a, R>>>,
)
    requires
        opened(start, opened_at, keys, Ok::<CacheWriter<S>, IoPathError>(writer)),
        filled.target() == writer.target(),
        filled.meta_targets() == writer.meta_targets(),
        filled.record() == writer.record(),
        filled.reliable(),
        filled.metas_untouched(),
        published(opened_at, published_at, filled, Ok::<(), IoPathError>(())),
        0 <= index < keys.len(),
        looked_up(published_at, after, seq![keys[index]], r),
    ensures
        r matches Ok(Some(hit)) && hit.key@ == keys[index]@ && hit.reader.reliable()
            && hit.reader.remaining() == filled.written(),
{
    let texts = key_texts(keys);
    let (blob_id, written_at) = choose|blob_id: Seq<u8>, now: Timestamp|
        blob_id.len() == BLOB_ID_SIZE && now.wf() && #[trigger] is_set(
            start,
            texts,
            blob_id,
            now,
            Ok::<CacheWriter<S>, IoPathError>(writer),
            opened_at,
        );
    let one = seq![keys[index]];
    let now = choose|now: Timestamp|
        now.wf() && reports_get(
            r,
            one,
            (#[trigger] cache_get(published_at, key_texts(one), 0, now)).0,
        ) && after == cache_get(published_at, key_texts(one), 0, now).1;
    law_round_trip(opened_at, texts, blob_id, written_at, filled.written(), index, now);
    assert(key_texts(one) =~= seq![texts[index]]);
}

/// Of two sort keys, one comes before the other or they are the same.
proof fn lemma_key_order_total(a: SortKey, b: SortKey)
    ensures
        key_le(a, b) || key_le(b, a),
{
}

/// A sum of weights is no more than the sum of weights that are no less.
proof fn lemma_weight_le(keys: Seq<SortKey>, f: spec_fn(SortKey) -> nat, g: spec_fn(SortKey) -> nat)
    requires
        forall|i: int| 0 <= i < keys.len() ==> f(#[trigger] keys[i]) <= g(keys[i]),
    ensures
        total_weight(keys, f) <= total_weight(keys, g),
    decreases keys.len(),
{
    if keys.len() > 0 {
        assert forall|i: int| 0 <= i < keys.drop_last().len() implies f(
            #[trigger] keys.drop_last()[i],
        ) <= g(keys.drop_last()[i]) by {
            assert(keys.drop_last()[i] == keys[i]);
        }
        lemma_weight_le(keys.drop_last(), f, g);
        assert(f(keys[keys.len() - 1]) <= g(keys[keys.len() - 1]));
    }
}

/// Weights that are all nothing sum up to nothing.
proof fn lemma_weight_nothing(keys: Seq<SortKey>, f: spec_fn(SortKey) -> nat)
    requires
        forall|i: int| 0 <= i < keys.len() ==> f(#[trigger] keys[i]) == 0,
    ensures
        total_weight(keys, f) == 0,
    decreases keys.len(),
{
    if keys.len() > 0 {
        assert forall|i: int| 0 <= i < keys.drop_last().len() implies f(
            #[trigger] keys.drop_last()[i],
        ) == 0 by {
            assert(keys.drop_last()[i] == keys[i]);
        }
        lemma_weight_nothing(keys.drop_last(), f);
        assert(f(keys[keys.len() - 1]) == 0);
    }
}

/// Among the first `n` blobs, if any stays, one that stays comes before
/// all others that stay.
proof fn lemma_first_retained(keys: Seq<SortKey>, evicted: Seq<usize>, n: int) -> (m: int)
    requires
        0 <= n <= keys.len(),
        exists|i: int| 0 <= i < n && !evicted.contains((#[trigger] keys[i]).3),
    ensures
        0 <= m < n,
        !evicted.contains(keys[m].3),
        forall|i: int|
            0 <= i < n && !evicted.contains((#[trigger] keys[i]).3) ==> key_le(keys[m], keys[i]),
    decreases n,
{
    let last = n - 1;
    if exists|i: int| 0 <= i < last && !evicted.contains((#[trigger] keys[i]).3) {
        let before = lemma_first_retained(keys, evicted, last);
        if evicted.contains(keys[last].3) || key_le(keys[before], keys[last]) {
            before
        } else {
            lemma_key_order_total(keys[before], keys[last]);
            assert forall|i: int|
                0 <= i < n && !evicted.contains((#[trigger] keys[i]).3) implies key_le(
                keys[last],
                keys[i],
            ) by {
                if i < last {
                    assert(key_le(keys[before], keys[i]));
                }
            }
            last
        }
    } else {
        let i = choose|i: int| 0 <= i < n && !evicted.contains((#[trigger] keys[i]).3);
        assert(i == last);
        last
    }
}

/// **What an eviction pass keeps is fresh and fits.** Of the blobs that
/// an eviction pass found with their keys, every blob that stays was used
/// within the allowed age, and the blobs that stay take no more space than
/// allowed, all together.
pub proof fn law_plan_keeps_what_is_fresh_and_fits(
    blobs: Seq<BlobView>,
    evicted: Seq<usize>,
    max_unused_age: Option<TimeDelta>,
    max_blob_size_sum: Option<u64>,
    now: Timestamp,
)
    requires
        blobs.len() <= usize::MAX,
        is_plan(keys_of(blobs), evicted, max_unused_age, max_blob_size_sum, now),
    ensures
        forall|i: int|
            0 <= i < blobs.len() && !evicted.contains(i as usize) ==> !is_stale(
                (#[trigger] blobs[i]).latest_access.total_nanos(),
                max_unused_age,
                now,
            ),
        total_weight(keys_of(blobs), if_retained(evicted)) <= budget(max_blob_size_sum),
{
    let keys = keys_of(blobs);
    assert forall|i: int| 0 <= i < keys.len() implies (#[trigger] keys[i]).3 == i as usize
        && keys[i].0 as int == blobs[i].latest_access.total_nanos() by {
        let secs = blobs[i].latest_access.secs() as int;
        let nanos = blobs[i].latest_access.nanos() as int;
        assert(-0x8000_0000_0000_0000 * 1_000_000_000 <= secs * 1_000_000_000
            <= 0x8000_0000_0000_0000 * 1_000_000_000) by (nonlinear_arith)
            requires
                -0x8000_0000_0000_0000 <= secs <= 0x8000_0000_0000_0000,
        ;
    }
    assert forall|i: int| 0 <= i < blobs.len() && !evicted.contains(i as usize) implies !is_stale(
        (#[trigger] blobs[i]).latest_access.total_nanos(),
        max_unused_age,
        now,
    ) by {
        assert(!must_go(keys, keys[i], max_unused_age, max_blob_size_sum, now));
    }
    if exists|i: int| 0 <= i < keys.len() && !evicted.contains((#[trigger] keys[i]).3) {
        let m = lemma_first_retained(keys, evicted, keys.len() as int);
        assert(!must_go(keys, keys[m], max_unused_age, max_blob_size_sum, now));
        assert forall|i: int| 0 <= i < keys.len() implies if_retained(evicted)(#[trigger] keys[i])
            <= not_older(keys[m])(keys[i]) by {}
        lemma_weight_le(keys, if_retained(evicted), not_older(keys[m]));
    } else {
        assert forall|i: int| 0 <= i < keys.len() implies if_retained(evicted)(#[trigger] keys[i])
            == 0 by {}
        lemma_weight_nothing(keys, if_retained(evicted));
    }
}

/// How many of `paths[from..]` are deleted before the deletion ends: all
/// of them, or those before the first that cannot be deleted.
pub open spec fn deleted_count(entries: Entries, paths: Seq<Seq<char>>, from: int) -> int
    decreases paths.len() - from,
{
    if from < 0 || from >= paths.len() {
        0
    } else {
        match delete_error(entries, paths[from]) {
            Some(_) => 0,
            None => 1 + deleted_count(
                without(entries, split_components(paths[from])),
                paths,
                from + 1,
            ),
        }
    }
}

/// Whether one of `paths[from..to]` leads to `q`.
pub open spec fn is_between(paths: Seq<Seq<char>>, from: int, to: int, q: Components) -> bool {
    exists|i: int| from <= i < to && split_components(#[trigger] paths[i]) == q
}

/// Where paths are deleted one after the other, with or without an error at
/// the end, nothing is left at those that were deleted, and everything else
/// stays as it was. All paths are deleted if and only if no error ends the
/// deletion.
pub proof fn lemma_deleted_so_far(
    entries: Entries,
    paths: Seq<Seq<char>>,
    from: int,
    q: Components,
)
    requires
        0 <= from <= paths.len(),
    ensures
        0 <= deleted_count(entries, paths, from) <= paths.len() - from,
        delete_all(entries, paths, from).0 is None <==> from + deleted_count(entries, paths, from)
            == paths.len(),
        delete_all(entries, paths, from).1(q) == (if is_between(
            paths,
            from,
            from + deleted_count(entries, paths, from),
            q,
        ) {
            None
        } else {
            entries(q)
        }),
    decreases paths.len() - from,
{
    if from < paths.len() && delete_error(entries, paths[from]) is None {
        let next = without(entries, split_components(paths[from]));
        let to = from + deleted_count(entries, paths, from);
        lemma_deleted_so_far(next, paths, from + 1, q);
        assert(to == from + 1 + deleted_count(next, paths, from + 1));
        if is_between(paths, from + 1, to, q) {
            let i = choose|i: int|
                from + 1 <= i < to && split_components(#[trigger] paths[i]) == q;
            assert(from <= i < to && split_components(paths[i]) == q);
        } else if split_components(paths[from]) == q {
            assert(from <= from < to && split_components(paths[from]) == q);
        } else {
            if is_between(paths, from, to, q) {
                let i = choose|i: int| from <= i < to && split_components(#[trigger] paths[i]) == q;
                assert(from + 1 <= i);
            }
        }
    }
}

/// The paths that are deleted for the first blobs stay where they are when
/// the paths for further blobs follow.
proof fn lemma_eviction_paths_grow(blobs: Seq<BlobView>, evicted: Seq<usize>, e: int, n: int)
    requires
        0 <= e <= n,
    ensures
        eviction_paths(blobs, evicted, e).len() <= eviction_paths(blobs, evicted, n).len(),
        forall|i: int|
            0 <= i < eviction_paths(blobs, evicted, e).len() ==> eviction_paths(
                blobs,
                evicted,
                n,
            )[i] == #[trigger] eviction_paths(blobs, evicted, e)[i],
    decreases n - e,
{
    if e < n {
        lemma_eviction_paths_grow(blobs, evicted, e, n - 1);
        assert(eviction_paths(blobs, evicted, n) == eviction_paths(blobs, evicted, n - 1)
            + paths_of(blobs[evicted[n - 1] as int]));
    }
}

/// **The keys of a blob go before the blob.** In the paths that an
/// eviction pass deletes, the meta records of the keys of a blob stand
/// before the blob. So whenever the pass has deleted a blob, it has deleted
/// the meta record of each of its keys, also where an error has ended the
/// pass before all was deleted: no key is left behind by the pass whose blob
/// the pass has taken.
pub proof fn law_keys_go_before_their_blob(
    entries: Entries,
    blobs: Seq<BlobView>,
    evicted: Seq<usize>,
    e: int,
    k: int,
)
    requires
        0 <= e < evicted.len(),
        0 <= k < blobs[evicted[e] as int].keys.len(),
    ensures
        ({
            let paths = eviction_paths(blobs, evicted, evicted.len() as int);
            let start = eviction_paths(blobs, evicted, e).len() as int;
            let blob = blobs[evicted[e] as int];
            let count = blob.keys.len() as int;
            let done = deleted_count(entries, paths, 0);
            let after = delete_all(entries, paths, 0).1;
            &&& start + count < paths.len()
            &&& paths[start + k] == meta_path_text(blob.keys[k])
            &&& paths[start + count] == blob_path_text(blob.blob_id)
            &&& start + count < done ==> after(meta_components(blob.keys[k])) is None
                && after(blob_components(blob.blob_id)) is None
        }),
{
    let paths = eviction_paths(blobs, evicted, evicted.len() as int);
    let start = eviction_paths(blobs, evicted, e).len() as int;
    let blob = blobs[evicted[e] as int];
    let count = blob.keys.len() as int;
    let with_blob = eviction_paths(blobs, evicted, e + 1);
    assert(with_blob == eviction_paths(blobs, evicted, e) + paths_of(blob));
    lemma_eviction_paths_grow(blobs, evicted, e + 1, evicted.len() as int);
    assert(with_blob[start + k] == paths_of(blob)[k]);
    assert(with_blob[start + count] == paths_of(blob)[count]);
    assert(paths[start + k] == with_blob[start + k]);
    assert(paths[start + count] == with_blob[start + count]);
    let done = deleted_count(entries, paths, 0);
    if start + count < done {
        lemma_deleted_so_far(entries, paths, 0, meta_components(blob.keys[k]));
        lemma_deleted_so_far(entries, paths, 0, blob_components(blob.blob_id));
        assert(is_between(paths, 0, done, meta_components(blob.keys[k]))) by {
            assert(split_components(paths[start + k]) == meta_components(blob.keys[k]));
        }
        assert(is_between(paths, 0, done, blob_components(blob.blob_id))) by {
            assert(split_components(paths[start + count]) == blob_components(
                blob.blob_id,
            ));
        }
    }
}

/// **Last access never goes back, for every cache on a reliable storage.**
/// Where the clock of a cache tells no time before the last access of a key,
/// a lookup leaves the key with a meta record if and only if it had one, and
/// with a last access that is no earlier than before.
pub proof fn law_lookup_never_sets_back<'a, C: Clock, R: Read>(
    clock: C,
    before: Entries,
    after: Entries,
    keys: Seq<&'a str>,
    r: IoPathResult<Option<CacheHit<'a, R>>>,
    key: Seq<char>,
)
    requires
        consistent(before),
        looked_up_by(clock, before, after, keys, r),
        forall|now: Timestamp|
            #[trigger] clock.tells(now) ==> (last_access(before, key) matches Some(t) ==> t
                <= now.total_nanos()),
    ensures
        match last_access(before, key) {
            Some(earlier) => last_access(after, key) matches Some(later) && earlier <= later,
            None => last_access(after, key) is None,
        },
{
    let texts = key_texts(keys);
    let now = choose|now: Timestamp|
        clock.tells(now) && now.wf() && reports_get(
            r,
            keys,
            (#[trigger] cache_get(before, texts, 0, now)).0,
        ) && after == cache_get(before, texts, 0, now).1;
    law_last_access_monotonic(before, texts, 0, now, key);
}

} // verus!
