//! A storage that keeps its files in memory.
//!
//! It is mainly intended for tests of what builds on a storage. A file is a
//! shared, unchanging block of bytes: a reader keeps the content that it was
//! opened on, whatever happens to the path afterwards.

pub mod dir_node;
pub mod file_node;
pub mod path_iter;

use crate::error::{ErrorKind, IoError, IoPathError, IoPathResult};
use crate::storage::in_memory::dir_node::{DirNode, Found};
use crate::storage::in_memory::file_node::{FileNode, FileReader, FileWriter};
use crate::storage::in_memory::path_iter::{
    component_names, is_component, is_component_name, lemma_components_are_names, split_components,
};
use crate::storage::{
    close_spec, consistent, delete_spec, lists, put_spec, Components, Entries, EntryView,
    FileHandle, Storage, StorageEntry,
};
use crate::util::io::Write;
use std::sync::Arc;
use vstd::prelude::*;

verus! {

/// In-memory storage implementation.
#[derive(Debug)]
pub struct InMemoryStorage {
    root: DirNode,
}

impl InMemoryStorage {
    /// Creates a new in-memory storage, which holds nothing but its root
    /// directory.
    pub fn new() -> (storage: Self)
        ensures
            storage.inv(),
            storage.reliable(),
            consistent(storage.entries()),
            storage.entries()(seq![]) == Some(EntryView::Directory),
            forall|q: Components| q.len() > 0 ==> (#[trigger] storage.entries()(q)) is None,
    {
        let root = DirNode::new();
        proof {
            root.lemma_empty();
            root.lemma_consistent();
        }
        InMemoryStorage { root }
    }

}

impl Default for InMemoryStorage {
    fn default() -> (storage: Self)
        ensures
            storage.inv(),
            storage.reliable(),
            consistent(storage.entries()),
            storage.entries()(seq![]) == Some(EntryView::Directory),
            forall|q: Components| q.len() > 0 ==> (#[trigger] storage.entries()(q)) is None,
    {
        Self::new()
    }
}

/// The error for a path that is not absolute came from splitting it; this
/// attaches the path.
fn invalid_path(error: IoError, path: &str) -> (e: IoPathError)
    ensures
        e.error == error,
        e.has_path(path@),
{
    IoPathError::new(error, path)
}

impl InMemoryStorage {
    /// Deletes the file or the empty directory at the given path.
    fn delete_at(&mut self, path: &str) -> (r: IoPathResult<()>)
        requires
            old(self).inv(),
        ensures
            final(self).inv(),
            delete_spec(old(self).entries(), path@, final(self).entries(), r),
    {
        let names = match component_names(path) {
            Ok(names) => names,
            Err(e) => {
                return Err(invalid_path(e, path));
            },
        };
        if names.len() == 0 {
            return Err(
                IoPathError::new(
                    IoError::new(ErrorKind::InvalidInput, "Must not delete root directory"),
                    path,
                ),
            );
        }
        assert(names.deep_view().skip(0) =~= names.deep_view());
        let r = self.root.remove(&names, 0);
        r
    }

    /// Creates the directories above the given path and opens a writer
    /// for the file at it.
    fn put_at(&mut self, path: &str) -> (r: IoPathResult<FileWriter>)
        requires
            old(self).inv(),
        ensures
            final(self).inv(),
            put_spec(old(self).entries(), path@, final(self).entries(), r),
            r matches Ok(writer) ==> writer.reliable() && writer.written() == Seq::<u8>::empty()
                && writer.target() == split_components(path@),
    {
        let names = match component_names(path) {
            Ok(names) => names,
            Err(e) => {
                return Err(invalid_path(e, path));
            },
        };
        if names.len() == 0 {
            return Err(
                IoPathError::new(
                    IoError::new(
                        ErrorKind::InvalidInput,
                        "Path must contain at least one component",
                    ),
                    path,
                ),
            );
        }
        assert(names.deep_view().skip(0) =~= names.deep_view());
        proof {
            lemma_components_are_names(path@);
            assert forall|j: int| 0 <= j < names.len() implies is_component(#[trigger] names[j]@) by {
                assert(names[j]@ == names.deep_view()[j]);
            }
        }
        let r = self.root.store(&names, 0, None);
        match r {
            Ok(()) => Ok(FileNode::writer(names)),
            Err(e) => Err(e),
        }
    }

    /// Makes what was written the content of the file that the writer was
    /// opened for.
    fn close_at(&mut self, writer: FileWriter) -> (r: IoPathResult<()>)
        requires
            old(self).inv(),
        ensures
            final(self).inv(),
            writer.reliable() ==> close_spec(
                old(self).entries(),
                writer.target(),
                writer.written(),
                final(self).entries(),
                r,
            ),
    {
        let (names, content) = writer.into_parts();
        if names.len() == 0 {
            return Err(
                IoPathError::new_no_path(
                    IoError::new(
                        ErrorKind::InvalidInput,
                        "Path must contain at least one component",
                    ),
                ),
            );
        }
        assert(names.deep_view().skip(0) =~= names.deep_view());
        let mut checked: usize = 0;
        while checked < names.len()
            invariant
                checked <= names.len(),
                self.inv(),
                *self == *old(self),
                names.deep_view() == writer.target(),
                forall|j: int| 0 <= j < checked ==> is_component(#[trigger] names[j]@),
            decreases names.len() - checked,
        {
            if !is_component_name(names[checked].as_str()) {
                proof {
                    assert(names[checked as int]@ == names.deep_view()[checked as int]);
                }
                return Err(
                    IoPathError::new_no_path(
                        IoError::new(ErrorKind::InvalidInput, "Path component must be a name"),
                    ),
                );
            }
            checked += 1;
        }
        let file = Arc::new(FileNode::with_content(content));
        let r = self.root.store(&names, 0, Some(file));
        r
    }
}

impl Storage for InMemoryStorage {
    type Reader = FileReader;

    type Writer = FileWriter;

    open spec fn reliable(&self) -> bool {
        true
    }

    closed spec fn entries(&self) -> Entries {
        self.root.entries()
    }

    closed spec fn inv(&self) -> bool {
        self.root.wf()
    }

    fn delete(&mut self, path: &str) -> (r: IoPathResult<()>) {
        let r = self.delete_at(path);
        proof {
            self.root.lemma_consistent();
        }
        r
    }


    fn exists_file(&self, path: &str) -> (r: IoPathResult<bool>) {
        match self.get(path) {
            Ok(_) => Ok(true),
            Err(e) => match e.io_error().kind() {
                ErrorKind::IsADirectory | ErrorKind::NotFound => Ok(false),
                _ => Err(e),
            },
        }
    }

    fn get(&self, path: &str) -> (r: IoPathResult<FileHandle<FileReader>>) {
        let names = match component_names(path) {
            Ok(names) => names,
            Err(e) => {
                return Err(invalid_path(e, path));
            },
        };
        if names.len() == 0 {
            return Err(
                IoPathError::new(
                    IoError::new(
                        ErrorKind::InvalidInput,
                        "Path must contain at least one component",
                    ),
                    path,
                ),
            );
        }
        assert(names.deep_view().skip(0) =~= names.deep_view());
        match self.root.find(&names, 0) {
            Found::File(file) => Ok(
                FileHandle { size_hint: file.size() as u64, reader: FileNode::reader(file) },
            ),
            Found::Dir(_) => Err(
                IoPathError::new(IoError::new(ErrorKind::IsADirectory, "Is a directory"), path),
            ),
            Found::Nothing => Err(
                IoPathError::new(IoError::new(ErrorKind::NotFound, "File not found"), path),
            ),
        }
    }

    fn list(&self, path: &str) -> (r: IoPathResult<Vec<StorageEntry>>) {
        let names = match component_names(path) {
            Ok(names) => names,
            Err(e) => {
                return Err(invalid_path(e, path));
            },
        };
        assert(names.deep_view().skip(0) =~= names.deep_view());
        match self.root.find(&names, 0) {
            Found::Dir(dir) => {
                let items = dir.list();
                proof {
                    let components = split_components(path@);
                    let all = self.entries();
                    let empty: Components = seq![];
                    assert forall|name: Seq<char>|
                        dir.entries()(#[trigger] empty.push(name)) == all(components.push(name)) by {
                        assert(components + empty.push(name) =~= components.push(name));
                    }
                    assert(lists(items@, all, components)) by {
                        assert forall|i: int| 0 <= i < items.len() implies crate::storage::describes(
                            #[trigger] items[i],
                            all,
                            components,
                        ) by {
                            assert(crate::storage::describes(items[i], dir.entries(), empty));
                            assert(dir.entries()(empty.push(items[i].name@)) == all(
                                components.push(items[i].name@),
                            ));
                        }
                        assert forall|name: Seq<char>| (#[trigger] all(components.push(name))) is Some implies exists|
                            i: int,
                        |
                            0 <= i < items.len() && (#[trigger] items[i]).name@ == name by {
                            assert(dir.entries()(empty.push(name)) is Some);
                        }
                    }
                }
                Ok(items)
            },
            Found::File(_) => Err(
                IoPathError::new(IoError::new(ErrorKind::NotADirectory, "Not a directory"), path),
            ),
            Found::Nothing => Err(
                IoPathError::new(
                    IoError::new(ErrorKind::NotFound, "No such file or directory"),
                    path,
                ),
            ),
        }
    }

    fn put(&mut self, path: &str) -> (r: IoPathResult<FileWriter>) {
        let r = self.put_at(path);
        proof {
            self.root.lemma_consistent();
        }
        r
    }


    fn close(&mut self, writer: FileWriter) -> (r: IoPathResult<()>) {
        let r = self.close_at(writer);
        proof {
            self.root.lemma_consistent();
        }
        r
    }

}

} // verus!
