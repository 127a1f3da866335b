//! A storage is a place where files are stored.
//!
//! Paths use `/` as separator and are absolute within the storage. Empty
//! components are ignored, so a path stands for the sequence of its
//! non-empty components.
//!
//! A file is written through a writer that [`Storage::put`] hands out. What
//! is written becomes the file's content when the writer is closed with
//! [`Storage::close`], and not before.
//!
//! A storage may be shared with other processes and may sit on a device that
//! fails. The contracts of this module describe a storage that is
//! [`Storage::reliable`]: one that is used by this handle alone and fails only
//! for the reasons that its model shows. Of any other storage they leave the
//! outcome of every call open.

pub mod filesystem;
pub mod in_memory;
pub mod laws;

use crate::error::{ErrorKind, IoPathError, IoPathResult};
use crate::storage::in_memory::path_iter::{is_absolute, is_component, split_components};
use crate::util::io::{write_all, Read, Write};
use vstd::prelude::*;

verus! {

/// The type of entry when listing a storage directory.
#[derive(Debug, Clone, Copy, PartialEq, Eq, Structural)]
pub enum EntryType {
    /// A standard file.
    File,
    /// A directory.
    Directory,
}

/// An entry in a storage directory.
#[derive(Debug, Clone, PartialEq, Eq)]
pub struct StorageEntry {
    /// The type of the entry.
    pub entry_type: EntryType,
    /// The (file) name of the entry.
    pub name: String,
    /// The file size of the entry in bytes; `0` for directories.
    pub size: u64,
}

/// An open file: its reader and its size when it was opened.
#[derive(Debug)]
pub struct FileHandle<R> {
    /// Reader for the file's content.
    pub reader: R,
    /// Size of the file in bytes.
    pub size_hint: u64,
}

/// What a storage holds at a path.
pub enum EntryView {
    /// A file with its content.
    File(Seq<u8>),
    /// A directory.
    Directory,
}

/// A path as the sequence of its components.
pub type Components = Seq<Seq<char>>;

/// Whether `p` is a prefix of `q` that is shorter than `q`.
pub open spec fn is_proper_prefix(p: Components, q: Components) -> bool {
    p.len() < q.len() && q.take(p.len() as int) == p
}

/// A storage is a place where files are stored, for example the local
/// filesystem.
pub trait Storage {
    /// The type of reader returned by this storage.
    type Reader: Read;

    /// The type of writer returned by this storage.
    type Writer: Write;

    /// Whether this storage is used by this handle alone and fails only for
    /// the reasons that its model shows. A storage is not reliable unless
    /// it says so.
    open spec fn reliable(&self) -> bool {
        false
    }

    /// What the storage holds at each path, the path given by its
    /// components. Of a storage that is not reliable, nothing is known: its
    /// model is empty.
    open spec fn entries(&self) -> Entries {
        |q: Components| None::<EntryView>
    }

    /// What the storage needs to hold of itself between calls. A reliable
    /// storage is consistent whenever this holds and a call has returned.
    open spec fn inv(&self) -> bool {
        true
    }

    /// Deletes the file or the empty directory at the given path.
    fn delete(&mut self, path: &str) -> (r: IoPathResult<()>)
        requires
            old(self).inv(),
            old(self).reliable() ==> consistent(old(self).entries()),
        ensures
            final(self).inv(),
            final(self).reliable() == old(self).reliable(),
            final(self).reliable() ==> consistent(final(self).entries()),
            old(self).reliable() ==> delete_spec(
                old(self).entries(),
                path@,
                final(self).entries(),
                r,
            ),
    ;

    /// Checks if a file exists at the given path.
    fn exists_file(&self, path: &str) -> (r: IoPathResult<bool>)
        requires
            self.inv(),
            self.reliable() ==> consistent(self.entries()),
        ensures
            self.reliable() ==> exists_file_spec(self.entries(), path@, r),
    ;

    /// Returns a reader for the file at the given path.
    fn get(&self, path: &str) -> (r: IoPathResult<FileHandle<Self::Reader>>)
        requires
            self.inv(),
            self.reliable() ==> consistent(self.entries()),
        ensures
            self.reliable() ==> get_spec(self.entries(), path@, r),
            self.reliable() ==> (r matches Ok(handle) ==> handle.reader.reliable()
                && self.entries()(split_components(path@)) == Some(
                EntryView::File(handle.reader.remaining()),
            ) && handle.size_hint == handle.reader.remaining().len()),
    ;

    /// Returns the entries in the directory at the given path.
    fn list(&self, path: &str) -> (r: IoPathResult<Vec<StorageEntry>>)
        requires
            self.inv(),
            self.reliable() ==> consistent(self.entries()),
        ensures
            self.reliable() ==> list_spec(self.entries(), path@, r),
    ;

    /// Returns a writer for the file at the given path, and creates the
    /// directories above it. The file itself is created, or replaced, when
    /// the writer is closed.
    fn put(&mut self, path: &str) -> (r: IoPathResult<Self::Writer>)
        requires
            old(self).inv(),
            old(self).reliable() ==> consistent(old(self).entries()),
        ensures
            final(self).inv(),
            final(self).reliable() == old(self).reliable(),
            final(self).reliable() ==> consistent(final(self).entries()),
            old(self).reliable() ==> put_spec(
                old(self).entries(),
                path@,
                final(self).entries(),
                r,
            ),
            old(self).reliable() ==> (r matches Ok(writer) ==> writer.reliable()
                && writer.written() == Seq::<u8>::empty() && writer.target()
                == split_components(path@)),
    ;

    /// Makes what was written to `writer` the content of the file that the
    /// writer was opened for.
    fn close(&mut self, writer: Self::Writer) -> (r: IoPathResult<()>)
        requires
            old(self).inv(),
            old(self).reliable() ==> consistent(old(self).entries()),
        ensures
            final(self).inv(),
            final(self).reliable() == old(self).reliable(),
            final(self).reliable() ==> consistent(final(self).entries()),
            old(self).reliable() && writer.reliable() ==> close_spec(
                old(self).entries(),
                writer.target(),
                writer.written(),
                final(self).entries(),
                r,
            ),
    ;
}

/// The model of a storage: what it holds at each path.
pub type Entries = spec_fn(Components) -> Option<EntryView>;

/// Whether a storage can be used: it holds what it needs to hold of itself,
/// and it is consistent if it is reliable.
pub open spec fn sound<S: Storage>(storage: &S) -> bool {
    storage.inv() && (storage.reliable() ==> consistent(storage.entries()))
}


/// The root is a directory, what lies above an entry is a directory, and
/// the path of an entry is made of names.
pub open spec fn consistent(entries: Entries) -> bool {
    &&& entries(seq![]) == Some(EntryView::Directory)
    &&& forall|p: Components, q: Components|
        is_proper_prefix(p, q) && (#[trigger] entries(q)) is Some ==> #[trigger] entries(p) == Some(
            EntryView::Directory,
        )
    &&& forall|q: Components, i: int|
        (#[trigger] entries(q)) is Some && 0 <= i < q.len() ==> is_component(#[trigger] q[i])
}

/// Whether a file must not be created at `path` because a file lies above it.
pub open spec fn blocked_by_file(entries: Entries, path: Components) -> bool {
    exists|k: int| 0 < k < path.len() && is_file(#[trigger] entries(path.take(k)))
}

/// Whether an entry is a file.
pub open spec fn is_file(entry: Option<EntryView>) -> bool {
    entry matches Some(EntryView::File(_))
}

/// Whether the directory at `path` has an entry.
pub open spec fn has_children(entries: Entries, path: Components) -> bool {
    exists|name: Seq<char>| (#[trigger] entries(path.push(name))) is Some
}

/// The error, if any, with which a reliable storage refuses to read the file
/// at the given path.
pub open spec fn get_error(entries: Entries, path: Seq<char>) -> Option<ErrorKind> {
    let components = split_components(path);
    if !is_absolute(path) || components.len() == 0 {
        Some(ErrorKind::InvalidInput)
    } else {
        match entries(components) {
            Some(EntryView::File(_)) => None,
            Some(EntryView::Directory) => Some(ErrorKind::IsADirectory),
            None => Some(ErrorKind::NotFound),
        }
    }
}

/// What `get` does on a reliable storage.
pub open spec fn get_spec<R>(entries: Entries, path: Seq<char>, r: IoPathResult<FileHandle<R>>)
    -> bool {
    match get_error(entries, path) {
        None => r is Ok,
        Some(kind) => r matches Err(e) && e.kind() == kind,
    }
}

/// What `exists_file` does on a reliable storage.
pub open spec fn exists_file_spec(entries: Entries, path: Seq<char>, r: IoPathResult<bool>) -> bool {
    match get_error(entries, path) {
        None => r == Ok::<bool, IoPathError>(true),
        Some(ErrorKind::IsADirectory) | Some(ErrorKind::NotFound) => r == Ok::<bool, IoPathError>(
            false,
        ),
        Some(kind) => r matches Err(e) && e.kind() == kind,
    }
}

/// The error, if any, with which a reliable storage refuses to list the
/// directory at the given path.
pub open spec fn list_error(entries: Entries, path: Seq<char>) -> Option<ErrorKind> {
    let components = split_components(path);
    if !is_absolute(path) {
        Some(ErrorKind::InvalidInput)
    } else {
        match entries(components) {
            Some(EntryView::Directory) => None,
            Some(EntryView::File(_)) => Some(ErrorKind::NotADirectory),
            None => Some(ErrorKind::NotFound),
        }
    }
}

/// Whether `item` describes what the storage holds at `path`.
pub open spec fn describes(item: StorageEntry, entries: Entries, path: Components) -> bool {
    match entries(path.push(item.name@)) {
        Some(EntryView::File(content)) => item.entry_type == EntryType::File && item.size
            == content.len(),
        Some(EntryView::Directory) => item.entry_type == EntryType::Directory && item.size == 0,
        None => false,
    }
}

/// Whether `items` are the entries of the directory at `path`, each of them
/// once.
pub open spec fn lists(items: Seq<StorageEntry>, entries: Entries, path: Components) -> bool {
    &&& forall|i: int| 0 <= i < items.len() ==> describes(#[trigger] items[i], entries, path)
    &&& forall|i: int, j: int|
        0 <= i < j < items.len() ==> (#[trigger] items[i]).name@ != (#[trigger] items[j]).name@
    &&& forall|name: Seq<char>| (#[trigger] entries(path.push(name))) is Some ==> exists|i: int|
        0 <= i < items.len() && (#[trigger] items[i]).name@ == name
}

/// What `list` does on a reliable storage.
pub open spec fn list_spec(entries: Entries, path: Seq<char>, r: IoPathResult<Vec<StorageEntry>>)
    -> bool {
    match list_error(entries, path) {
        None => r matches Ok(items) && lists(items@, entries, split_components(path)),
        Some(kind) => r matches Err(e) && e.kind() == kind,
    }
}

/// The error, if any, with which a reliable storage refuses to write a file
/// at the path with the given components.
pub open spec fn store_error(entries: Entries, components: Components) -> Option<ErrorKind> {
    if components.len() == 0 {
        Some(ErrorKind::InvalidInput)
    } else if blocked_by_file(entries, components) {
        Some(ErrorKind::NotADirectory)
    } else if entries(components) == Some(EntryView::Directory) {
        Some(ErrorKind::IsADirectory)
    } else {
        None
    }
}

/// The error, if any, with which a reliable storage refuses to open a writer
/// for the given path.
pub open spec fn put_error(entries: Entries, path: Seq<char>) -> Option<ErrorKind> {
    if !is_absolute(path) {
        Some(ErrorKind::InvalidInput)
    } else {
        store_error(entries, split_components(path))
    }
}

/// The entries after the directories above `path` have been created.
pub open spec fn with_parents(before: Entries, path: Components) -> Entries {
    |q: Components|
        if is_proper_prefix(q, path) {
            Some(EntryView::Directory)
        } else {
            before(q)
        }
}

/// The entries after the file at `path` has been written, together with the
/// directories above it.
pub open spec fn with_file(before: Entries, path: Components, content: Seq<u8>) -> Entries {
    |q: Components|
        if q == path {
            Some(EntryView::File(content))
        } else if is_proper_prefix(q, path) {
            Some(EntryView::Directory)
        } else {
            before(q)
        }
}

/// The entries after what is at `path` has been removed.
pub open spec fn without(before: Entries, path: Components) -> Entries {
    |q: Components|
        if q == path {
            None
        } else {
            before(q)
        }
}

/// What `put` does on a reliable storage.
pub open spec fn put_spec<W>(before: Entries, path: Seq<char>, after: Entries, r: IoPathResult<W>)
    -> bool {
    match put_error(before, path) {
        None => r is Ok && forall|q: Components| #[trigger]
            after(q) == with_parents(before, split_components(path))(q),
        Some(kind) => r matches Err(e) && e.kind() == kind && forall|q: Components| #[trigger]
            after(q) == before(q),
    }
}

/// What `close` does on a reliable storage with a reliable writer.
pub open spec fn close_spec(
    before: Entries,
    target: Components,
    content: Seq<u8>,
    after: Entries,
    r: IoPathResult<()>,
) -> bool {
    match store_error(before, target) {
        None => r is Ok && forall|q: Components| #[trigger]
            after(q) == with_file(before, target, content)(q),
        Some(kind) => r matches Err(e) && e.kind() == kind && forall|q: Components| #[trigger]
            after(q) == before(q),
    }
}

/// The error, if any, with which a reliable storage refuses to remove what
/// is at the path with the given components.
pub open spec fn remove_error(entries: Entries, components: Components) -> Option<ErrorKind> {
    if components.len() == 0 {
        Some(ErrorKind::InvalidInput)
    } else if entries(components) is None {
        Some(ErrorKind::NotFound)
    } else if has_children(entries, components) {
        Some(ErrorKind::DirectoryNotEmpty)
    } else {
        None
    }
}

/// The error, if any, with which a reliable storage refuses to delete what
/// is at the given path.
pub open spec fn delete_error(entries: Entries, path: Seq<char>) -> Option<ErrorKind> {
    if !is_absolute(path) {
        Some(ErrorKind::InvalidInput)
    } else {
        remove_error(entries, split_components(path))
    }
}

/// What `delete` does on a reliable storage.
pub open spec fn delete_spec(before: Entries, path: Seq<char>, after: Entries, r: IoPathResult<()>)
    -> bool {
    match delete_error(before, path) {
        None => r is Ok && forall|q: Components| #[trigger]
            after(q) == without(before, split_components(path))(q),
        Some(kind) => r matches Err(e) && e.kind() == kind && forall|q: Components| #[trigger]
            after(q) == before(q),
    }
}

/// After the directories above a path have been created, nothing stands in
/// the way of the file, and writing it gives what writing it at once would
/// have given.
pub proof fn lemma_store_after_put(entries: Entries, path: Components, content: Seq<u8>)
    requires
        store_error(entries, path) is None,
    ensures
        store_error(with_parents(entries, path), path) is None,
        with_file(with_parents(entries, path), path, content) == with_file(entries, path, content),
{
    let made = with_parents(entries, path);
    assert forall|k: int| 0 < k < path.len() implies !is_file(#[trigger] made(path.take(k))) by {
        assert(is_proper_prefix(path.take(k), path)) by {
            assert(path.take(path.take(k).len() as int) =~= path.take(k));
        }
    }
    assert(!is_proper_prefix(path, path));
    assert(with_file(made, path, content) =~= with_file(entries, path, content));
}

/// Where a file is, a file can be written: nothing stands in the way of
/// replacing it.
pub proof fn lemma_store_over_file(entries: Entries, path: Components)
    requires
        consistent(entries),
        is_file(entries(path)),
    ensures
        store_error(entries, path) is None,
{
    if path.len() == 0 {
        assert(path =~= seq![]);
    }
    assert forall|k: int| 0 < k < path.len() implies !is_file(#[trigger] entries(path.take(k))) by {
        assert(is_proper_prefix(path.take(k), path)) by {
            assert(path.take(path.take(k).len() as int) =~= path.take(k));
        }
    }
}

/// Writes a file in one go: opens a writer for `path`, writes `data` and
/// closes the writer.
pub fn write_file<S: Storage>(storage: &mut S, path: &str, data: &[u8]) -> (r: IoPathResult<()>)
    requires
        sound(old(storage)),
    ensures
        sound(final(storage)),
        final(storage).reliable() == old(storage).reliable(),
        old(storage).reliable() ==> (match put_error(old(storage).entries(), path@) {
            None => r is Ok && forall|q: Components| #[trigger]
                final(storage).entries()(q) == with_file(
                    old(storage).entries(),
                    split_components(path@),
                    data@,
                )(q),
            Some(kind) => r matches Err(e) && e.kind() == kind && forall|q: Components| #[trigger]
                final(storage).entries()(q) == old(storage).entries()(q),
        }),
{
    let ghost before: Entries = storage.entries();
    let ghost components = split_components(path@);
    let mut writer = match storage.put(path) {
        Ok(writer) => writer,
        Err(e) => {
            return Err(e);
        },
    };
    let ghost made: Entries = storage.entries();
    proof {
        if old(storage).reliable() {
            assert(made =~= with_parents(before, components));
            lemma_store_after_put(before, components, data@);
        }
    }
    match write_all(&mut writer, data) {
        Ok(()) => {},
        Err(e) => {
            return Err(IoPathError::new(e, path));
        },
    }
    proof {
        if old(storage).reliable() {
            assert(writer.written() =~= data@);
        }
    }
    storage.close(writer)
}

} // verus!
