//! What an eviction pass finds in a cache: the files two levels below a
//! directory, the sizes of the blobs, and the blobs with their keys.

use crate::cache::blob_id::BlobId;
use crate::cache::eviction::{views, Blob, BlobView};
use crate::error::IoPathResult;
use crate::storage::in_memory::path_iter::{
    is_absolute, is_component, lemma_split_append, split_components,
};
use crate::storage::{
    consistent, is_file, list_error, lists, sound, Components, Entries, EntryType, EntryView,
    Storage, StorageEntry,
};
use crate::util::clock::{later_of, Timestamp};
use crate::util::encoding::{decode, decoded};
use crate::util::text::{append_str, str_chars, string_from_chars};
use std::collections::HashMap;
use vstd::bytes::{spec_u128_from_le_bytes, u128_from_le_bytes};
use vstd::prelude::*;

verus! {

/// A file two levels below a directory.
#[derive(Debug, Clone)]
pub struct SubdirFile {
    /// The storage path of the file.
    pub path: String,
    /// The name of the directory that holds the file.
    pub subdir: String,
    /// The name of the file.
    pub name: String,
    /// The size of the file in bytes.
    pub size: u64,
}

/// The path of the entry `name` in the directory at `base`.
pub open spec fn child_path(base: Seq<char>, name: Seq<char>) -> Seq<char> {
    base + seq!['/'] + name
}

/// Whether `file` describes a file that the storage holds two levels below
/// `base`.
pub open spec fn is_file_below(file: SubdirFile, entries: Entries, base: Seq<char>) -> bool {
    let dir = split_components(base).push(file.subdir@);
    &&& entries(dir) == Some(EntryView::Directory)
    &&& entries(dir.push(file.name@)) matches Some(EntryView::File(content)) && content.len()
        == file.size
    &&& file.path@ == child_path(child_path(base, file.subdir@), file.name@)
}

/// Whether `files` holds the file `name` of the directory `subdir`.
pub open spec fn holds_file(files: Seq<SubdirFile>, subdir: Seq<char>, name: Seq<char>) -> bool {
    exists|i: int|
        0 <= i < files.len() && (#[trigger] files[i]).subdir@ == subdir && files[i].name@ == name
}

/// Whether every one of `files` is a file that the storage holds two levels
/// below `base`.
pub open spec fn all_below(files: Seq<SubdirFile>, entries: Entries, base: Seq<char>) -> bool {
    forall|i: int| 0 <= i < files.len() ==> is_file_below(#[trigger] files[i], entries, base)
}

/// Whether no two of `files` are the same file.
pub open spec fn all_apart(files: Seq<SubdirFile>) -> bool {
    forall|i: int, j: int|
        0 <= i < j < files.len() ==> (#[trigger] files[i]).subdir@ != (#[trigger] files[j]).subdir@
            || files[i].name@ != files[j].name@
}

/// Whether `files` holds every file of the directory `subdir` below `base`.
pub open spec fn covers(
    files: Seq<SubdirFile>,
    entries: Entries,
    base: Seq<char>,
    subdir: Seq<char>,
) -> bool {
    forall|name: Seq<char>|
        is_file(#[trigger] entries(split_components(base).push(subdir).push(name))) ==> holds_file(
            files,
            subdir,
            name,
        )
}

/// Whether `files` are the files that the storage holds two levels below
/// `base`, each of them once.
pub open spec fn files_below(files: Seq<SubdirFile>, entries: Entries, base: Seq<char>) -> bool {
    &&& all_below(files, entries, base)
    &&& all_apart(files)
    &&& forall|subdir: Seq<char>| #[trigger] covers(files, entries, base, subdir)
}

/// The path of the entry `name` in the directory at `base`.
fn join(base: &str, name: &str) -> (path: String)
    ensures
        path@ == child_path(base@, name@),
{
    let mut chars = str_chars(base);
    chars.push('/');
    append_str(&mut chars, name);
    string_from_chars(chars.as_slice())
}

/// Whether all of `files` are in the directory `subdir`.
pub open spec fn all_in(files: Seq<SubdirFile>, subdir: Seq<char>) -> bool {
    forall|i: int| 0 <= i < files.len() ==> (#[trigger] files[i]).subdir@ == subdir
}

/// Whether one of the first `n` of `items` has the given name.
pub open spec fn names(items: Seq<StorageEntry>, n: int, name: Seq<char>) -> bool {
    exists|m: int| 0 <= m < n && (#[trigger] items[m]).name@ == name
}

/// Whether each of `files` has the name of one of the first `n` of `items`.
pub open spec fn named_by(files: Seq<SubdirFile>, items: Seq<StorageEntry>, n: int) -> bool {
    forall|i: int| 0 <= i < files.len() ==> names(items, n, (#[trigger] files[i]).name@)
}

/// Whether each of `files` is in a directory that one of the first `n` of
/// `dirs` names.
pub open spec fn held_by(files: Seq<SubdirFile>, dirs: Seq<StorageEntry>, n: int) -> bool {
    forall|i: int| 0 <= i < files.len() ==> names(dirs, n, (#[trigger] files[i]).subdir@)
}

/// Lists the files of the directory `subdir` of the directory at `base`.
fn list_subdir<S: Storage>(storage: &S, base: &str, subdir: &str) -> (r: IoPathResult<
    Vec<SubdirFile>,
>)
    requires
        sound(storage),
        is_absolute(base@),
        is_component(subdir@),
    ensures
        storage.reliable() && storage.entries()(split_components(base@).push(subdir@)) == Some(
            EntryView::Directory,
        ) ==> (r matches Ok(files) && all_below(files@, storage.entries(), base@) && all_in(
            files@,
            subdir@,
        ) && all_apart(files@) && covers(files@, storage.entries(), base@, subdir@)),
{
    let ghost entries = storage.entries();
    let ghost dir = split_components(base@).push(subdir@);
    let ghost exact = storage.reliable() && entries(dir) == Some(EntryView::Directory);
    let subdir_path = join(base, subdir);
    proof {
        lemma_split_append(base@, subdir@);
    }
    let items = match storage.list(subdir_path.as_str()) {
        Ok(items) => items,
        Err(e) => {
            return Err(e);
        },
    };
    let mut files: Vec<SubdirFile> = Vec::new();
    let mut j: usize = 0;
    while j < items.len()
        invariant
            j <= items.len(),
            subdir_path@ == child_path(base@, subdir@),
            dir == split_components(base@).push(subdir@),
            exact ==> entries(dir) == Some(EntryView::Directory),
            exact ==> lists(items@, entries, dir),
            exact ==> all_below(files@, entries, base@),
            all_in(files@, subdir@),
            exact ==> named_by(files@, items@, j as int),
            exact ==> all_apart(files@),
            exact ==> forall|m: int|
                0 <= m < j && is_file(entries(dir.push((#[trigger] items[m]).name@))) ==> holds_file(
                    files@,
                    subdir@,
                    items[m].name@,
                ),
        decreases items.len() - j,
    {
        let item = &items[j];
        let ghost before = files@;
        proof {
            if exact {
                assert(crate::storage::describes(items[j as int], entries, dir));
            }
        }
        match item.entry_type {
            EntryType::Directory => {},
            EntryType::File => {
                let file = SubdirFile {
                    path: join(subdir_path.as_str(), item.name.as_str()),
                    subdir: subdir.to_owned(),
                    name: item.name.clone(),
                    size: item.size,
                };
                files.push(file);
                proof {
                    if exact {
                        lemma_pushed_file(before, file, items@, j as int);
                    }
                }
            },
        }
        proof {
            if exact {
                lemma_named_more(before, items@, j as int);
                assert forall|m: int|
                    0 <= m < j + 1 && is_file(
                        entries(dir.push((#[trigger] items[m]).name@)),
                    ) implies holds_file(files@, subdir@, items[m].name@) by {
                    if m < j {
                        lemma_still_held(before, files@, subdir@, items[m].name@);
                    } else {
                        assert(files@[files.len() - 1].name@ == items[m].name@);
                    }
                }
            }
        }
        j += 1;
    }
    proof {
        if exact {
            assert forall|name: Seq<char>|
                is_file(#[trigger] entries(dir.push(name))) implies holds_file(
                files@,
                subdir@,
                name,
            ) by {
                let m = choose|m: int| 0 <= m < items.len() && (#[trigger] items[m]).name@ == name;
            }
        }
    }
    Ok(files)
}

/// A file with a new name keeps the files apart.
proof fn lemma_pushed_file(
    before: Seq<SubdirFile>,
    file: SubdirFile,
    items: Seq<StorageEntry>,
    j: int,
)
    requires
        all_apart(before),
        named_by(before, items, j),
        0 <= j < items.len(),
        file.name@ == items[j].name@,
        forall|a: int, b: int|
            0 <= a < b < items.len() ==> (#[trigger] items[a]).name@ != (#[trigger] items[b]).name@,
    ensures
        all_apart(before.push(file)),
        named_by(before.push(file), items, j + 1),
{
    let after = before.push(file);
    assert forall|a: int, b: int| 0 <= a < b < after.len() implies (#[trigger] after[a]).subdir@
        != (#[trigger] after[b]).subdir@ || after[a].name@ != after[b].name@ by {
        if b == before.len() {
            assert(names(items, j, before[a].name@));
            let m = choose|m: int| 0 <= m < j && (#[trigger] items[m]).name@ == before[a].name@;
            assert(items[m].name@ != items[j].name@);
        } else {
            assert(after[a] == before[a] && after[b] == before[b]);
        }
    }
    assert forall|i: int| 0 <= i < after.len() implies names(
        items,
        j + 1,
        (#[trigger] after[i]).name@,
    ) by {
        if i < before.len() {
            assert(names(items, j, before[i].name@));
            let m = choose|m: int| 0 <= m < j && (#[trigger] items[m]).name@ == before[i].name@;
            assert(after[i] == before[i]);
            assert(items[m].name@ == after[i].name@);
        } else {
            assert(items[j].name@ == after[i].name@);
        }
    }
}

/// What was named by the first items is named by more of them.
proof fn lemma_named_more(files: Seq<SubdirFile>, items: Seq<StorageEntry>, j: int)
    requires
        named_by(files, items, j),
    ensures
        named_by(files, items, j + 1),
{
    assert forall|i: int| 0 <= i < files.len() implies names(
        items,
        j + 1,
        (#[trigger] files[i]).name@,
    ) by {
        assert(names(items, j, files[i].name@));
        let m = choose|m: int| 0 <= m < j && (#[trigger] items[m]).name@ == files[i].name@;
        assert(items[m].name@ == files[i].name@);
    }
}

/// A file that a list holds is held by every list that starts with it.
proof fn lemma_still_held(
    before: Seq<SubdirFile>,
    after: Seq<SubdirFile>,
    subdir: Seq<char>,
    name: Seq<char>,
)
    requires
        holds_file(before, subdir, name),
        before.len() <= after.len(),
        forall|i: int| 0 <= i < before.len() ==> after[i] == before[i],
    ensures
        holds_file(after, subdir, name),
{
    let i = choose|i: int|
        0 <= i < before.len() && (#[trigger] before[i]).subdir@ == subdir && before[i].name@
            == name;
    assert(after[i].subdir@ == subdir && after[i].name@ == name);
}

/// The files of one more directory, added to those of others.
proof fn lemma_more_files(
    before: Seq<SubdirFile>,
    more: Seq<SubdirFile>,
    dirs: Seq<StorageEntry>,
    n: int,
    entries: Entries,
    base: Seq<char>,
)
    requires
        0 <= n < dirs.len(),
        all_below(before, entries, base),
        all_apart(before),
        held_by(before, dirs, n),
        all_below(more, entries, base),
        all_apart(more),
        all_in(more, dirs[n].name@),
        forall|a: int, b: int|
            0 <= a < b < dirs.len() ==> (#[trigger] dirs[a]).name@ != (#[trigger] dirs[b]).name@,
    ensures
        all_below(before + more, entries, base),
        all_apart(before + more),
        held_by(before + more, dirs, n + 1),
{
    let after = before + more;
    assert forall|a: int, b: int| 0 <= a < b < after.len() implies (#[trigger] after[a]).subdir@
        != (#[trigger] after[b]).subdir@ || after[a].name@ != after[b].name@ by {
        if b < before.len() {
            assert(after[a] == before[a] && after[b] == before[b]);
        } else if a >= before.len() {
            assert(after[a] == more[a - before.len()] && after[b] == more[b - before.len()]);
        } else {
            assert(names(dirs, n, before[a].subdir@));
            let d = choose|d: int| 0 <= d < n && (#[trigger] dirs[d]).name@ == before[a].subdir@;
            assert(after[b] == more[b - before.len()]);
            assert(dirs[d].name@ != dirs[n].name@);
        }
    }
    assert forall|i: int| 0 <= i < after.len() implies names(
        dirs,
        n + 1,
        (#[trigger] after[i]).subdir@,
    ) by {
        if i < before.len() {
            assert(names(dirs, n, before[i].subdir@));
            let d = choose|d: int| 0 <= d < n && (#[trigger] dirs[d]).name@ == before[i].subdir@;
            assert(after[i] == before[i]);
            assert(dirs[d].name@ == after[i].subdir@);
        } else {
            assert(after[i] == more[i - before.len()]);
            assert(dirs[n].name@ == after[i].subdir@);
        }
    }
    assert forall|i: int| 0 <= i < after.len() implies is_file_below(
        #[trigger] after[i],
        entries,
        base,
    ) by {
        if i < before.len() {
            assert(after[i] == before[i]);
        } else {
            assert(after[i] == more[i - before.len()]);
        }
    }
}

/// Lists the files that a storage holds two levels below the directory at
/// `path`: the files in the directories in it.
pub fn iter_subdir_files<S: Storage>(storage: &S, path: &str) -> (r: IoPathResult<Vec<SubdirFile>>)
    requires
        sound(storage),
    ensures
        storage.reliable() ==> (match list_error(storage.entries(), path@) {
            Some(kind) => r matches Err(e) && e.kind() == kind,
            None => r matches Ok(files) && files_below(files@, storage.entries(), path@),
        }),
{
    let ghost entries = storage.entries();
    let ghost root = split_components(path@);
    let ghost reliable = storage.reliable();
    let dirs = match storage.list(path) {
        Ok(dirs) => dirs,
        Err(e) => {
            return Err(e);
        },
    };
    let mut files: Vec<SubdirFile> = Vec::new();
    let mut i: usize = 0;
    while i < dirs.len()
        invariant
            i <= dirs.len(),
            sound(storage),
            entries == storage.entries(),
            root == split_components(path@),
            reliable == storage.reliable(),
            reliable ==> is_absolute(path@) && lists(dirs@, entries, root),
            reliable ==> all_below(files@, entries, path@),
            reliable ==> all_apart(files@),
            reliable ==> held_by(files@, dirs@, i as int),
            reliable ==> forall|d: int|
                0 <= d < i ==> covers(files@, entries, path@, (#[trigger] dirs[d]).name@),
        decreases dirs.len() - i,
    {
        let dir = &dirs[i];
        let ghost dir_components = root.push(dir.name@);
        let ghost before = files@;
        proof {
            if reliable {
                assert(crate::storage::describes(dirs[i as int], entries, root));
                assert(entries(dir_components) is Some);
                assert(is_component(dir_components[root.len() as int]));
            }
        }
        let mut more: Vec<SubdirFile> = Vec::new();
        match dir.entry_type {
            EntryType::File => {
                proof {
                    if reliable {
                        lemma_nothing_below_file(entries, dir_components);
                    }
                }
            },
            EntryType::Directory => {
                if !reliable_name(dir.name.as_str()) {
                    return Err(
                        crate::error::IoPathError::new(
                            crate::error::IoError::new(
                                crate::error::ErrorKind::InvalidData,
                                "Entry name is not a path component",
                            ),
                            path,
                        ),
                    );
                }
                if !path_is_absolute(path) {
                    return Err(
                        crate::error::IoPathError::new(
                            crate::error::IoError::new(
                                crate::error::ErrorKind::InvalidInput,
                                "Path must be absolute, i.e. start with a slash '/'",
                            ),
                            path,
                        ),
                    );
                }
                more = match list_subdir(storage, path, dir.name.as_str()) {
                    Ok(more) => more,
                    Err(e) => {
                        return Err(e);
                    },
                };
            },
        }
        let ghost added = more@;
        files.append(&mut more);
        proof {
            if reliable {
                assert(files@ =~= before + added);
                assert(all_in(added, dir.name@));
                lemma_more_files(before, added, dirs@, i as int, entries, path@);
                assert forall|d: int| 0 <= d < i + 1 implies covers(
                    files@,
                    entries,
                    path@,
                    (#[trigger] dirs[d]).name@,
                ) by {
                    let subdir = dirs[d].name@;
                    assert forall|name: Seq<char>|
                        is_file(#[trigger] entries(root.push(subdir).push(name))) implies holds_file(
                        files@,
                        subdir,
                        name,
                    ) by {
                        if d < i {
                            assert(covers(before, entries, path@, dirs[d].name@));
                            lemma_still_held(before, files@, subdir, name);
                        } else {
                            assert(holds_file(added, subdir, name));
                            let k = choose|k: int|
                                0 <= k < added.len() && (#[trigger] added[k]).subdir@ == subdir
                                    && added[k].name@ == name;
                            assert(files@[before.len() + k] == added[k]);
                        }
                    }
                }
            }
        }
        i += 1;
    }
    proof {
        if reliable {
            assert forall|subdir: Seq<char>| #[trigger]
                covers(files@, entries, path@, subdir) by {
                assert forall|name: Seq<char>|
                    is_file(#[trigger] entries(root.push(subdir).push(name))) implies holds_file(
                    files@,
                    subdir,
                    name,
                ) by {
                    let below = root.push(subdir).push(name);
                    assert(crate::storage::is_proper_prefix(root.push(subdir), below)) by {
                        assert(below.take(root.push(subdir).len() as int) =~= root.push(subdir));
                    }
                    assert(entries(root.push(subdir)) is Some);
                    let d = choose|d: int|
                        0 <= d < dirs.len() && (#[trigger] dirs[d]).name@ == subdir;
                    assert(covers(files@, entries, path@, dirs[d].name@));
                }
            }
        }
    }
    Ok(files)
}

/// There is nothing below a file.
proof fn lemma_nothing_below_file(entries: Entries, path: Components)
    requires
        consistent(entries),
        entries(path) is Some,
        entries(path) != Some(EntryView::Directory),
    ensures
        forall|name: Seq<char>| (#[trigger] entries(path.push(name))) is None,
{
    assert forall|name: Seq<char>| (#[trigger] entries(path.push(name))) is None by {
        let longer = path.push(name);
        assert(crate::storage::is_proper_prefix(path, longer)) by {
            assert(longer.take(path.len() as int) =~= path);
        }
    }
}

/// Whether `name` can be a single component of a path.
fn reliable_name(name: &str) -> (r: bool)
    ensures
        r == is_component(name@),
{
    crate::storage::in_memory::path_iter::is_component_name(name)
}

/// Whether `path` starts with `/`.
fn path_is_absolute(path: &str) -> (r: bool)
    ensures
        r == is_absolute(path@),
{
    let chars = str_chars(path);
    chars.len() > 0 && chars[0] == '/'
}

/// The longest text that is tried as the text form of a blob identifier.
pub const MAX_ENCODED_LEN: usize = 0x1FFF_FFFF;

/// The number that the blob identifier with the text form `subdir + name`
/// is read as, if that is the text form of an identifier of 16 bytes.
pub open spec fn named_blob(subdir: Seq<char>, name: Seq<char>) -> Option<u128> {
    let text = vstd::utf8::encode_utf8(subdir) + vstd::utf8::encode_utf8(name);
    if text.len() <= MAX_ENCODED_LEN {
        match decoded(text) {
            Some(id) => if id.len() == 16 {
                Some(spec_u128_from_le_bytes(id))
            } else {
                None
            },
            None => None,
        }
    } else {
        None
    }
}

/// The sizes of the blobs that `files` are, by the numbers that their
/// identifiers are read as. Files that are no blobs are left out; of two
/// files for one identifier the later one counts.
pub open spec fn blob_sizes(files: Seq<SubdirFile>) -> Map<u128, u64>
    decreases files.len(),
{
    if files.len() == 0 {
        Map::empty()
    } else {
        let sizes = blob_sizes(files.drop_last());
        match named_blob(files.last().subdir@, files.last().name@) {
            Some(number) => sizes.insert(number, files.last().size),
            None => sizes,
        }
    }
}

/// Finds the sizes of the blobs among `files`.
pub fn collect_blob_sizes(files: &Vec<SubdirFile>) -> (sizes: HashMap<u128, u64>)
    ensures
        sizes@ == blob_sizes(files@),
{
    broadcast use vstd::std_specs::hash::group_hash_axioms;

    let mut sizes: HashMap<u128, u64> = HashMap::new();
    let mut i: usize = 0;
    while i < files.len()
        invariant
            i <= files.len(),
            sizes@ == blob_sizes(files@.take(i as int)),
        decreases files.len() - i,
    {
        let file = &files[i];
        proof {
            assert(files@.take(i + 1).drop_last() =~= files@.take(i as int));
            assert(files@.take(i + 1).last() == files[i as int]);
        }
        let mut text = vstd::slice::slice_to_vec(file.subdir.as_str().as_bytes());
        let mut tail = vstd::slice::slice_to_vec(file.name.as_str().as_bytes());
        text.append(&mut tail);
        if text.len() <= MAX_ENCODED_LEN {
            match decode(text.as_slice()) {
                Some(id) => {
                    if id.len() == 16 {
                        let number = u128_from_le_bytes(id.as_slice());
                        sizes.insert(number, file.size);
                    }
                },
                None => {},
            }
        }
        i += 1;
    }
    assert(files@.take(files.len() as int) =~= files@);
    sizes
}

/// What the meta record of a key says: the name of the key, the blob that
/// it stands for, and when it was last used.
#[derive(Debug, Clone)]
pub struct KeyRecord {
    pub name: String,
    pub blob_id: BlobId,
    pub latest_access: Timestamp,
}

/// What the meta record of a key says, as mathematical values.
pub struct KeyRecordView {
    pub name: Seq<char>,
    pub blob_id: Seq<u8>,
    pub latest_access: Timestamp,
}

impl View for KeyRecord {
    type V = KeyRecordView;

    open spec fn view(&self) -> KeyRecordView {
        KeyRecordView {
            name: self.name@,
            blob_id: self.blob_id@,
            latest_access: self.latest_access,
        }
    }
}

/// The records of a list as mathematical values.
pub open spec fn record_views(records: Seq<KeyRecord>) -> Seq<KeyRecordView> {
    records.map_values(|record: KeyRecord| record@)
}

/// The position of the first blob whose identifier is read as `number`.
pub open spec fn find_blob(blobs: Seq<BlobView>, number: u128) -> Option<int>
    decreases blobs.len(),
{
    if blobs.len() == 0 {
        None
    } else {
        match find_blob(blobs.drop_last(), number) {
            Some(p) => Some(p),
            None => if spec_u128_from_le_bytes(blobs.last().blob_id) == number {
                Some(blobs.len() - 1)
            } else {
                None
            },
        }
    }
}

/// The blobs after the key of `record` was added: to the blob that the key
/// stands for, which is new to the list if this is its first key. A key
/// whose blob has no size is left out.
pub open spec fn with_key(blobs: Seq<BlobView>, record: KeyRecordView, sizes: Map<u128, u64>)
    -> Seq<BlobView> {
    let number = spec_u128_from_le_bytes(record.blob_id);
    if !sizes.contains_key(number) {
        blobs
    } else {
        match find_blob(blobs, number) {
            Some(p) => blobs.update(
                p,
                BlobView {
                    latest_access: later_of(blobs[p].latest_access, record.latest_access),
                    size: blobs[p].size,
                    blob_id: blobs[p].blob_id,
                    keys: blobs[p].keys.push(record.name),
                },
            ),
            None => blobs.push(
                BlobView {
                    latest_access: record.latest_access,
                    size: sizes[number],
                    blob_id: record.blob_id,
                    keys: seq![record.name],
                },
            ),
        }
    }
}

/// The blobs that have a size, each with the keys that stand for it and
/// the latest access to any of them.
pub open spec fn aggregated(records: Seq<KeyRecordView>, sizes: Map<u128, u64>) -> Seq<BlobView>
    decreases records.len(),
{
    if records.len() == 0 {
        seq![]
    } else {
        with_key(aggregated(records.drop_last(), sizes), records.last(), sizes)
    }
}

/// What `find_blob` finds.
pub proof fn lemma_find_blob(blobs: Seq<BlobView>, number: u128)
    ensures
        match find_blob(blobs, number) {
            Some(p) => 0 <= p < blobs.len() && spec_u128_from_le_bytes(blobs[p].blob_id) == number
                && forall|q: int|
                0 <= q < p ==> spec_u128_from_le_bytes(#[trigger] blobs[q].blob_id) != number,
            None => forall|q: int|
                0 <= q < blobs.len() ==> spec_u128_from_le_bytes(#[trigger] blobs[q].blob_id)
                    != number,
        },
    decreases blobs.len(),
{
    if blobs.len() > 0 {
        lemma_find_blob(blobs.drop_last(), number);
        match find_blob(blobs.drop_last(), number) {
            Some(p) => {
                assert(blobs.drop_last()[p] == blobs[p]);
                assert forall|q: int| 0 <= q < p implies spec_u128_from_le_bytes(
                    #[trigger] blobs[q].blob_id,
                ) != number by {
                    assert(blobs.drop_last()[q] == blobs[q]);
                }
            },
            None => {
                assert forall|q: int| 0 <= q < blobs.len() - 1 implies spec_u128_from_le_bytes(
                    #[trigger] blobs[q].blob_id,
                ) != number by {
                    assert(blobs.drop_last()[q] == blobs[q]);
                }
            },
        }
    }
}

/// Whether `index` tells, for the number of every blob, where the blob is.
pub open spec fn indexes(index: Map<u128, usize>, blobs: Seq<BlobView>) -> bool {
    &&& forall|p: int|
        0 <= p < blobs.len() ==> index.contains_key(
            spec_u128_from_le_bytes(#[trigger] blobs[p].blob_id),
        ) && index[spec_u128_from_le_bytes(blobs[p].blob_id)] == p
    &&& forall|number: u128| #[trigger]
        index.contains_key(number) ==> index[number] < blobs.len() && spec_u128_from_le_bytes(
            blobs[index[number] as int].blob_id,
        ) == number
}

/// Puts the keys of `records` together by the blobs that they stand for.
/// Keys of blobs without a size are left out.
pub fn aggregate(records: Vec<KeyRecord>, sizes: &HashMap<u128, u64>) -> (blobs: Vec<Blob>)
    ensures
        views(blobs@) == aggregated(record_views(records@), sizes@),
{
    broadcast use vstd::std_specs::hash::group_hash_axioms;

    let ghost all = record_views(records@);
    let mut blobs: Vec<Blob> = Vec::new();
    let mut index: HashMap<u128, usize> = HashMap::new();
    let mut i: usize = 0;
    assert(views(blobs@) =~= aggregated(all.take(0), sizes@));
    while i < records.len()
        invariant
            i <= records.len(),
            all == record_views(records@),
            views(blobs@) == aggregated(all.take(i as int), sizes@),
            indexes(index@, views(blobs@)),
        decreases records.len() - i,
    {
        let record = &records[i];
        let ghost before = views(blobs@);
        proof {
            assert(all.take(i + 1).drop_last() =~= all.take(i as int));
            assert(all.take(i + 1).last() == record@);
        }
        let number = u128_from_le_bytes(vstd::array::array_as_slice(&record.blob_id));
        proof {
            lemma_find_blob(before, number);
        }
        match sizes.get(&number) {
            None => {},
            Some(size) => {
                match index.get(&number) {
                    Some(position) => {
                        let p: usize = *position;
                        let latest = blobs[p].latest_access.latest(record.latest_access);
                        blobs[p].latest_access = latest;
                        blobs[p].keys.push(record.name.clone());
                        proof {
                            assert(find_blob(before, number) == Some(p as int));
                            assert(views(blobs@) =~= with_key(before, record@, sizes@)) by {
                                assert(blobs[p as int]@.keys =~= before[p as int].keys.push(
                                    record.name@,
                                ));
                            }
                        }
                    },
                    None => {
                        let mut keys: Vec<String> = Vec::new();
                        keys.push(record.name.clone());
                        let blob = Blob {
                            latest_access: record.latest_access,
                            size: *size,
                            blob_id: record.blob_id,
                            keys,
                        };
                        proof {
                            assert(blob@.keys =~= seq![record.name@]);
                            assert(find_blob(before, number) is None);
                        }
                        index.insert(number, blobs.len());
                        blobs.push(blob);
                        proof {
                            assert(views(blobs@) =~= with_key(before, record@, sizes@));
                        }
                    },
                }
            },
        }
        i += 1;
    }
    assert(all.take(records.len() as int) =~= all);
    blobs
}

} // verus!
