//! The directory tree of the in-memory storage.
//!
//! A directory maps names to nodes; no name occurs twice in it.

use crate::error::{ErrorKind, IoError, IoPathError, IoPathResult};
use crate::storage::in_memory::file_node::FileNode;
use crate::storage::{
    blocked_by_file, consistent, has_children, is_file, is_proper_prefix, lists, remove_error,
    store_error, with_file, with_parents, without, Components, EntryType, EntryView, StorageEntry,
};
use crate::storage::in_memory::path_iter::is_component;
use crate::util::text::str_eq;
use std::sync::Arc;
use vstd::prelude::*;

verus! {

/// A node of the tree: a directory or a file.
#[derive(Debug)]
pub enum Node {
    Dir(DirNode),
    File(Arc<FileNode>),
}

/// A named node of a directory.
#[derive(Debug)]
pub struct DirEntry {
    pub name: String,
    pub node: Node,
}

/// A directory: its entries, each under a name of its own.
#[derive(Debug)]
pub struct DirNode {
    entries: Vec<DirEntry>,
}

/// What a walk along a path has found.
pub enum Found<'a> {
    Dir(&'a DirNode),
    File(&'a Arc<FileNode>),
    Nothing,
}

/// The content of a file that may or may not be given.
pub open spec fn content_of(file: Option<Arc<FileNode>>) -> Option<Seq<u8>> {
    match file {
        Some(f) => Some(f@),
        None => None,
    }
}

/// The entries after a store: with the file, or with the directories above
/// it alone.
pub open spec fn stored(
    before: spec_fn(Components) -> Option<EntryView>,
    path: Components,
    content: Option<Seq<u8>>,
) -> spec_fn(Components) -> Option<EntryView> {
    match content {
        Some(c) => with_file(before, path, c),
        None => with_parents(before, path),
    }
}

impl DirNode {
    /// Whether the directory has an entry with the given name.
    pub closed spec fn has(&self, name: Seq<char>) -> bool {
        exists|i: int| 0 <= i < self.entries.len() && (#[trigger] self.entries[i]).name@ == name
    }

    /// The position of the entry with the given name, if there is one.
    pub closed spec fn index_of(&self, name: Seq<char>) -> int {
        choose|i: int| 0 <= i < self.entries.len() && (#[trigger] self.entries[i]).name@ == name
    }

    /// The node with the given name, if there is one.
    pub closed spec fn child(&self, name: Seq<char>) -> Option<Node> {
        if self.has(name) {
            Some(self.entries[self.index_of(name)].node)
        } else {
            None
        }
    }

    /// No name occurs twice among the entries of this directory.
    pub closed spec fn unique_names(&self) -> bool {
        forall|i: int, j: int|
            0 <= i < j < self.entries.len() ==> (#[trigger] self.entries[i]).name@
                != (#[trigger] self.entries[j]).name@
    }

    /// A directory that is well formed holds no name twice.
    pub proof fn lemma_wf_unique(&self)
        requires
            self.wf(),
        ensures
            self.unique_names(),
    {
        reveal(DirNode::wf);
    }

    /// No name occurs twice, here or in any directory below, and every name
    /// is a component of a path.
    pub closed spec fn wf(&self) -> bool
        decreases self,
    {
        &&& forall|i: int, j: int|
            0 <= i < j < self.entries.len() ==> (#[trigger] self.entries[i]).name@
                != (#[trigger] self.entries[j]).name@
        &&& forall|i: int|
            0 <= i < self.entries.len() ==> ((#[trigger] self.entries[i]).node matches Node::Dir(d)
                ==> d.wf())
        &&& forall|i: int|
            0 <= i < self.entries.len() ==> is_component((#[trigger] self.entries[i]).name@)
    }

    /// What lies at `path` below this directory.
    pub closed spec fn entry(&self, path: Components) -> Option<EntryView>
        decreases path.len(),
    {
        if path.len() == 0 {
            Some(EntryView::Directory)
        } else {
            match self.child(path[0]) {
                Some(Node::Dir(d)) => d.entry(path.drop_first()),
                Some(Node::File(f)) => if path.len() == 1 {
                    Some(EntryView::File(f@))
                } else {
                    None
                },
                None => None,
            }
        }
    }

    /// The model of the tree below this directory.
    pub open spec fn entries(&self) -> spec_fn(Components) -> Option<EntryView> {
        |q: Components| self.entry(q)
    }

    /// Whether the directory has no entries.
    pub closed spec fn empty(&self) -> bool {
        self.entries.len() == 0
    }

    proof fn lemma_child_at(&self, i: int)
        requires
            self.wf() || self.unique_names(),
            0 <= i < self.entries.len(),
        ensures
            self.has(self.entries[i].name@),
            self.index_of(self.entries[i].name@) == i,
            self.child(self.entries[i].name@) == Some(self.entries[i].node),
    {
        reveal(DirNode::wf);
        let name = self.entries[i].name@;
        assert(self.has(name));
        let j = self.index_of(name);
        assert(0 <= j < self.entries.len() && self.entries[j].name@ == name);
        if j < i {
            assert(self.entries[j].name@ != self.entries[i].name@);
        } else if i < j {
            assert(self.entries[i].name@ != self.entries[j].name@);
        }
    }

    proof fn lemma_child_wf(&self, name: Seq<char>)
        requires
            self.wf(),
        ensures
            self.child(name) matches Some(Node::Dir(d)) ==> d.wf(),
    {
        reveal(DirNode::wf);
        if self.has(name) {
            let j = self.index_of(name);
            assert(0 <= j < self.entries.len() && self.entries[j].name@ == name);
        }
    }

    /// An empty directory holds nothing but itself.
    pub proof fn lemma_empty(&self)
        requires
            self.empty(),
        ensures
            self.wf(),
            self.entry(seq![]) == Some(EntryView::Directory),
            forall|q: Components| q.len() > 0 ==> (#[trigger] self.entry(q)) is None,
            !has_children(self.entries(), seq![]),
    {
        reveal(DirNode::wf);
        assert forall|q: Components| q.len() > 0 implies (#[trigger] self.entry(q)) is None by {
            assert(!self.has(q[0]));
        }
        assert forall|name: Seq<char>| (#[trigger] self.entries()(seq![].push(name))) is None by {
            assert(self.entry(seq![].push(name)) is None);
        }
    }

    /// A directory with an entry has a child.
    proof fn lemma_not_empty(&self)
        requires
            self.wf(),
            !self.empty(),
        ensures
            has_children(self.entries(), seq![]),
    {
        self.lemma_child_at(0);
        let name = self.entries[0].name@;
        let q: Components = seq![].push(name);
        assert(q[0] == name);
        match self.entries[0].node {
            Node::Dir(d) => {
                assert(q.drop_first() =~= seq![]);
                assert(d.entry(q.drop_first()) == Some(EntryView::Directory));
            },
            Node::File(f) => {},
        }
        assert(self.entries()(q) is Some);
    }

    /// What lies above an entry is a directory.
    pub proof fn lemma_consistent(&self)
        requires
            self.wf(),
        ensures
            consistent(self.entries()),
    {
        assert forall|p: Components, q: Components|
            is_proper_prefix(p, q) && (#[trigger] self.entries()(q)) is Some implies #[trigger] self.entries()(
            p,
        ) == Some(EntryView::Directory) by {
            self.lemma_prefix_is_dir(p, q);
        }
        assert forall|q: Components, i: int|
            (#[trigger] self.entries()(q)) is Some && 0 <= i < q.len() implies is_component(
            #[trigger] q[i],
        ) by {
            self.lemma_path_of_names(q, i);
        }
    }

    proof fn lemma_path_of_names(&self, q: Components, i: int)
        requires
            self.wf(),
            self.entry(q) is Some,
            0 <= i < q.len(),
        ensures
            is_component(q[i]),
        decreases q.len(),
    {
        reveal(DirNode::wf);
        assert(self.has(q[0]));
        let j = self.index_of(q[0]);
        assert(is_component(self.entries[j].name@));
        if i > 0 {
            self.lemma_child_wf(q[0]);
            match self.child(q[0]) {
                Some(Node::Dir(d)) => {
                    assert(q.drop_first()[i - 1] == q[i]);
                    d.lemma_path_of_names(q.drop_first(), i - 1);
                },
                _ => {},
            }
        }
    }

    proof fn lemma_prefix_is_dir(&self, p: Components, q: Components)
        requires
            self.wf(),
            is_proper_prefix(p, q),
            self.entry(q) is Some,
        ensures
            self.entry(p) == Some(EntryView::Directory),
        decreases p.len(),
    {
        if p.len() > 0 {
            assert(p[0] == q.take(p.len() as int)[0]);
            assert(q.len() > 1);
            self.lemma_child_wf(q[0]);
            match self.child(q[0]) {
                Some(Node::Dir(d)) => {
                    assert(q.drop_first().take(p.len() - 1) =~= p.drop_first());
                    d.lemma_prefix_is_dir(p.drop_first(), q.drop_first());
                },
                _ => {},
            }
        }
    }

    /// Creates an empty directory.
    pub fn new() -> (dir: Self)
        ensures
            dir.empty(),
            dir.wf(),
            dir.unique_names(),
    {
        let dir = DirNode { entries: Vec::new() };
        proof {
            dir.lemma_empty();
            dir.lemma_wf_unique();
        }
        dir
    }

    /// A directory has no entries if and only if no name has a node in it.
    pub proof fn lemma_empty_has_no_child(&self)
        ensures
            self.empty() <==> forall|name: Seq<char>| (#[trigger] self.child(name)) is None,
    {
        if self.entries.len() > 0 {
            let name = self.entries[0].name@;
            assert(self.has(name));
            assert(self.child(name) is Some);
        } else {
            assert forall|name: Seq<char>| (#[trigger] self.child(name)) is None by {
                assert(!self.has(name));
            }
        }
    }

    /// Whether the directory has no entries: no name has a node in it.
    pub fn is_empty(&self) -> (b: bool)
        ensures
            b == self.empty(),
            b == (forall|name: Seq<char>| (#[trigger] self.child(name)) is None),
    {
        proof {
            self.lemma_empty_has_no_child();
        }
        self.entries.len() == 0
    }

    /// The size that a directory is listed with.
    pub fn size(&self) -> (size: usize)
        ensures
            size == 0,
    {
        0
    }

    /// The position of the entry with the given name.
    fn position(&self, name: &str) -> (r: Option<usize>)
        requires
            self.wf() || self.unique_names(),
        ensures
            match r {
                Some(i) => i < self.entries.len() && self.entries[i as int].name@ == name@
                    && self.child(name@) == Some(self.entries[i as int].node),
                None => self.child(name@) is None,
            },
    {
        let mut i: usize = 0;
        while i < self.entries.len()
            invariant
                i <= self.entries.len(),
                self.wf() || self.unique_names(),
                forall|j: int| 0 <= j < i ==> (#[trigger] self.entries[j]).name@ != name@,
            decreases self.entries.len() - i,
        {
            if str_eq(self.entries[i].name.as_str(), name) {
                proof {
                    self.lemma_child_at(i as int);
                }
                return Some(i);
            }
            i += 1;
        }
        assert(!self.has(name@));
        None
    }

    /// The node with the given name.
    pub fn get(&self, name: &str) -> (r: Option<&Node>)
        requires
            self.unique_names(),
        ensures
            match r {
                Some(node) => self.child(name@) == Some(*node),
                None => self.child(name@) is None,
            },
    {
        match self.position(name) {
            Some(i) => Some(&self.entries[i].node),
            None => None,
        }
    }

    /// Whether `after` is `before` with `node` under the given name: in the
    /// place of the node that had the name, or as a new entry if none had.
    pub closed spec fn with_child(before: Self, after: Self, name: Seq<char>, node: Node) -> bool {
        if before.has(name) {
            let i = before.index_of(name);
            after.entries@ == before.entries@.update(
                i,
                DirEntry { name: before.entries[i].name, node },
            )
        } else {
            let n = before.entries.len() as int;
            &&& after.entries.len() == n + 1
            &&& forall|j: int| 0 <= j < n ==> after.entries[j] == before.entries[j]
            &&& after.entries[n].name@ == name
            &&& after.entries[n].node == node
        }
    }

    /// A directory that got a node under a name holds no name twice, as
    /// before; it has that node under its name and all other nodes as
    /// before. It stays well formed if the name is a component of a path
    /// and the node is well formed.
    pub proof fn lemma_with_child(before: Self, after: Self, name: Seq<char>, node: Node)
        requires
            before.unique_names(),
            Self::with_child(before, after, name, node),
        ensures
            after.unique_names(),
            before.wf() && is_component(name) && (node matches Node::Dir(d) ==> d.wf())
                ==> after.wf(),
            after.child(name) == Some(node),
            forall|other: Seq<char>|
                other != name ==> #[trigger] after.child(other) == before.child(other),
    {
        if before.has(name) {
            let i = before.index_of(name);
            assert(0 <= i < before.entries.len() && before.entries[i].name@ == name);
            before.lemma_replaced(after, i, name);
            assert forall|other: Seq<char>| other != name implies #[trigger] after.child(other)
                == before.child(other) by {
                before.lemma_replaced(after, i, other);
            }
        } else {
            before.lemma_pushed(after, name);
            assert forall|other: Seq<char>| other != name implies #[trigger] after.child(other)
                == before.child(other) by {
                before.lemma_pushed(after, other);
            }
        }
    }

    /// The node with the given name, for changing it. When the borrow
    /// ends, the directory holds what the node was changed to in the place
    /// of the node.
    pub fn get_mut(&mut self, name: &str) -> (r: Option<&mut Node>)
        requires
            old(self).unique_names(),
        ensures
            match r {
                Some(node) => old(self).child(name@) == Some(*node) && Self::with_child(
                    *old(self),
                    *final(self),
                    name@,
                    *final(node),
                ),
                None => old(self).child(name@) is None && *final(self) == *old(self),
            },
    {
        match self.position(name) {
            Some(i) => {
                proof {
                    self.lemma_child_at(i as int);
                }
                Some(&mut self.entries[i].node)
            },
            None => None,
        }
    }

    /// The directory with the given name, which is created if nothing has
    /// that name. When the borrow ends, the directory holds what the
    /// directory with that name was changed to.
    pub fn get_or_insert_dir(&mut self, name: &str) -> (r: IoPathResult<&mut DirNode>)
        requires
            old(self).unique_names(),
        ensures
            match old(self).child(name@) {
                Some(Node::File(_)) => r matches Err(e) && e.kind() == ErrorKind::NotADirectory
                    && e.has_path(name@) && *final(self) == *old(self),
                Some(Node::Dir(d)) => r matches Ok(dir) && *dir == d && Self::with_child(
                    *old(self),
                    *final(self),
                    name@,
                    Node::Dir(*final(dir)),
                ),
                None => r matches Ok(dir) && dir.empty() && Self::with_child(
                    *old(self),
                    *final(self),
                    name@,
                    Node::Dir(*final(dir)),
                ),
            },
    {
        let index = match self.position(name) {
            Some(i) => {
                proof {
                    self.lemma_child_at(i as int);
                }
                i
            },
            None => {
                self.entries.push(DirEntry { name: name.to_owned(), node: Node::Dir(DirNode::new()) });
                self.entries.len() - 1
            },
        };
        if let Node::File(_) = &self.entries[index].node {
            return Err(
                IoPathError::new(IoError::new(ErrorKind::NotADirectory, "Not a directory"), name),
            );
        }
        match &mut self.entries[index].node {
            Node::Dir(dir) => Ok(dir),
            Node::File(_) => {
                proof {
                    assert(false);
                }
                Err(IoPathError::new(IoError::new(ErrorKind::NotADirectory, "Not a directory"), name))
            },
        }
    }

    /// Walks along `names[from..]` and tells what is there.
    pub fn find<'a>(&'a self, names: &Vec<String>, from: usize) -> (r: Found<'a>)
        requires
            self.wf(),
            from <= names.len(),
        ensures
            match r {
                Found::Nothing => self.entry(names.deep_view().skip(from as int)) is None,
                Found::File(f) => self.entry(names.deep_view().skip(from as int)) == Some(
                    EntryView::File(f@),
                ),
                Found::Dir(d) => self.entry(names.deep_view().skip(from as int)) == Some(
                    EntryView::Directory,
                ) && d.wf() && forall|q: Components| #[trigger]
                    d.entry(q) == self.entry(names.deep_view().skip(from as int) + q),
            },
        decreases names.len() - from,
    {
        let ghost path = names.deep_view().skip(from as int);
        if from == names.len() {
            assert forall|q: Components| #[trigger] self.entry(q) == self.entry(path + q) by {
                assert(path + q =~= q);
            }
            return Found::Dir(self);
        }
        assert(path[0] == names[from as int]@);
        assert(path.drop_first() =~= names.deep_view().skip(from + 1));
        match self.get(names[from].as_str()) {
            None => Found::Nothing,
            Some(Node::File(f)) => {
                if from + 1 == names.len() {
                    Found::File(f)
                } else {
                    Found::Nothing
                }
            },
            Some(Node::Dir(d)) => {
                proof {
                    self.lemma_child_wf(path[0]);
                }
                let r = d.find(names, from + 1);
                proof {
                    if let Found::Dir(sub) = r {
                        assert forall|q: Components| #[trigger]
                            sub.entry(q) == self.entry(path + q) by {
                            assert((path + q).drop_first() =~= path.drop_first() + q);
                            assert((path + q)[0] == path[0]);
                        }
                    }
                }
                r
            },
        }
    }

    /// The entries of the directory.
    pub fn list(&self) -> (items: Vec<StorageEntry>)
        requires
            self.wf(),
        ensures
            lists(items@, self.entries(), seq![]),
    {
        let mut items: Vec<StorageEntry> = Vec::new();
        let mut i: usize = 0;
        while i < self.entries.len()
            invariant
                i <= self.entries.len(),
                self.wf(),
                items.len() == i,
                forall|j: int|
                    0 <= j < i ==> (#[trigger] items[j]).name@ == self.entries[j].name@
                        && items[j].entry_type == (match self.entries[j].node {
                        Node::Dir(_) => EntryType::Directory,
                        Node::File(_) => EntryType::File,
                    }) && items[j].size == (match self.entries[j].node {
                        Node::Dir(_) => 0,
                        Node::File(f) => f@.len() as int,
                    }),
            decreases self.entries.len() - i,
        {
            let entry = &self.entries[i];
            let item = match &entry.node {
                Node::Dir(dir) => StorageEntry {
                    entry_type: EntryType::Directory,
                    name: entry.name.clone(),
                    size: dir.size() as u64,
                },
                Node::File(file) => StorageEntry {
                    entry_type: EntryType::File,
                    name: entry.name.clone(),
                    size: file.size() as u64,
                },
            };
            items.push(item);
            i += 1;
        }
        proof {
            reveal(DirNode::wf);
            let root: Components = seq![];
            assert forall|j: int| 0 <= j < items.len() implies crate::storage::describes(
                #[trigger] items[j],
                self.entries(),
                root,
            ) by {
                self.lemma_child_at(j);
                let q = root.push(items[j].name@);
                assert(q.len() == 1);
                assert(q[0] == self.entries[j].name@);
                assert(q.drop_first() =~= seq![]);
                assert(self.child(q[0]) == Some(self.entries[j].node));
                match self.entries[j].node {
                    Node::Dir(d) => {
                        assert(self.entry(q) == d.entry(q.drop_first()));
                        assert(self.entry(q) == Some(EntryView::Directory));
                    },
                    Node::File(f) => {
                        assert(self.entry(q) == Some(EntryView::File(f@)));
                    },
                }
                assert(self.entries()(q) == self.entry(q));
            }
            assert forall|name: Seq<char>| (#[trigger] self.entries()(root.push(name))) is Some implies exists|
                j: int,
            |
                0 <= j < items.len() && (#[trigger] items[j]).name@ == name by {
                let q = root.push(name);
                assert(q[0] == name);
                assert(self.has(name));
                let j = self.index_of(name);
                assert(items[j].name@ == name);
            }
        }
        items
    }

    /// Removes the entry with the given name, which must not be a directory
    /// with entries.
    pub fn delete(&mut self, name: &str) -> (r: IoPathResult<()>)
        requires
            old(self).wf(),
        ensures
            final(self).wf(),
            match old(self).child(name@) {
                None => r matches Err(e) && e.kind() == ErrorKind::NotFound && e.has_path(name@)
                    && *final(self) == *old(self),
                Some(Node::Dir(d)) if !d.empty() => r matches Err(e) && e.kind()
                    == ErrorKind::DirectoryNotEmpty && e.has_path(name@) && *final(self) == *old(
                    self,
                ),
                _ => r is Ok && forall|other: Seq<char>| #[trigger]
                    final(self).child(other) == (if other == name@ {
                        None
                    } else {
                        old(self).child(other)
                    }),
            },
    {
        match self.position(name) {
            None => Err(
                IoPathError::new(
                    IoError::new(ErrorKind::NotFound, "No such file or directory"),
                    name,
                ),
            ),
            Some(i) => {
                let blocked = match &self.entries[i].node {
                    Node::Dir(dir) => !dir.is_empty(),
                    Node::File(_) => false,
                };
                if blocked {
                    return Err(
                        IoPathError::new(
                            IoError::new(
                                ErrorKind::DirectoryNotEmpty,
                                "Directory must be empty to be deleted",
                            ),
                            name,
                        ),
                    );
                }
                let ghost before = *self;
                self.entries.remove(i);
                proof {
                    reveal(DirNode::wf);
                    assert(self.entries@ =~= before.entries@.remove(i as int));
                    assert forall|other: Seq<char>| #[trigger]
                        self.child(other) == (if other == name@ {
                            None
                        } else {
                            before.child(other)
                        }) by {
                        before.lemma_removed(*self, i as int, other);
                    }
                }
                Ok(())
            },
        }
    }

    /// What lies at a path is decided by the node under the path's first
    /// component.
    proof fn lemma_entry_step(&self, q: Components)
        requires
            q.len() > 0,
        ensures
            self.entry(q) == (match self.child(q[0]) {
                Some(Node::Dir(d)) => d.entry(q.drop_first()),
                Some(Node::File(f)) => if q.len() == 1 {
                    Some(EntryView::File(f@))
                } else {
                    None
                },
                None => None,
            }),
    {
    }

    /// Whether a file lies above `path`, told from the node under the path's
    /// first component.
    proof fn lemma_blocked_step(&self, path: Components)
        requires
            self.wf(),
            path.len() > 0,
        ensures
            blocked_by_file(self.entries(), path) == (match self.child(path[0]) {
                Some(Node::Dir(d)) => blocked_by_file(d.entries(), path.drop_first()),
                Some(Node::File(f)) => path.len() > 1,
                None => false,
            }),
    {
        let rest = path.drop_first();
        let here = blocked_by_file(self.entries(), path);
        if here {
            let k = choose|k: int| 0 < k < path.len() && is_file(#[trigger] self.entries()(path.take(k)));
            let p = path.take(k);
            assert(p[0] == path[0]);
            self.lemma_entry_step(p);
            assert(p.drop_first() =~= rest.take(k - 1));
            match self.child(path[0]) {
                Some(Node::Dir(d)) => {
                    if k == 1 {
                        assert(p.drop_first() =~= seq![]);
                        assert(false);
                    }
                    assert(is_file(d.entries()(rest.take(k - 1))));
                },
                _ => {},
            }
        }
        match self.child(path[0]) {
            Some(Node::Dir(d)) => {
                if blocked_by_file(d.entries(), rest) {
                    let k = choose|k: int| 0 < k < rest.len() && is_file(#[trigger] d.entries()(rest.take(k)));
                    let p = path.take(k + 1);
                    assert(p[0] == path[0]);
                    self.lemma_entry_step(p);
                    assert(p.drop_first() =~= rest.take(k));
                    assert(is_file(self.entries()(path.take(k + 1))));
                }
            },
            Some(Node::File(f)) => {
                if path.len() > 1 {
                    let p = path.take(1);
                    assert(p[0] == path[0]);
                    self.lemma_entry_step(p);
                    assert(is_file(self.entries()(path.take(1))));
                }
            },
            None => {},
        }
    }

    /// The error of a store, told from the node under the path's first
    /// component.
    proof fn lemma_store_error_step(&self, path: Components)
        requires
            self.wf(),
            path.len() > 0,
        ensures
            store_error(self.entries(), path) == (match self.child(path[0]) {
                Some(Node::Dir(d)) => if path.len() == 1 {
                    Some(ErrorKind::IsADirectory)
                } else {
                    store_error(d.entries(), path.drop_first())
                },
                Some(Node::File(f)) => if path.len() == 1 {
                    None
                } else {
                    Some(ErrorKind::NotADirectory)
                },
                None => None,
            }),
    {
        self.lemma_blocked_step(path);
        self.lemma_entry_step(path);
        let rest = path.drop_first();
        match self.child(path[0]) {
            Some(Node::Dir(d)) => {
                if path.len() == 1 {
                    assert(rest =~= seq![]);
                    assert(!blocked_by_file(d.entries(), rest));
                }
            },
            _ => {},
        }
    }

    /// Relates the entries of a directory whose node under `name` was set to
    /// `node` with those before.
    proof fn lemma_entries_changed(&self, after: DirNode, name: Seq<char>, q: Components)
        requires
            forall|other: Seq<char>| #[trigger]
                after.child(other) == (if other == name {
                    after.child(name)
                } else {
                    self.child(other)
                }),
        ensures
            q.len() > 0 && q[0] != name ==> after.entry(q) == self.entry(q),
            q.len() == 0 ==> after.entry(q) == self.entry(q),
    {
        if q.len() > 0 {
            self.lemma_entry_step(q);
            after.lemma_entry_step(q);
        }
    }

    /// Creates the directories above `names[from..]` and, where `file` is
    /// given, makes it the file at that path.
    pub fn store(&mut self, names: &Vec<String>, from: usize, file: Option<Arc<FileNode>>) -> (r:
        IoPathResult<()>)
        requires
            old(self).wf(),
            from < names.len(),
            forall|j: int| from <= j < names.len() ==> is_component(#[trigger] names[j]@),
        ensures
            final(self).wf(),
            match store_error(old(self).entries(), names.deep_view().skip(from as int)) {
                None => r is Ok && forall|q: Components| #[trigger]
                    final(self).entry(q) == stored(
                        old(self).entries(),
                        names.deep_view().skip(from as int),
                        content_of(file),
                    )(q),
                Some(kind) => r matches Err(e) && e.kind() == kind && forall|q: Components| #[trigger]
                    final(self).entry(q) == old(self).entry(q),
            },
        decreases names.len() - from,
    {
        let ghost path = names.deep_view().skip(from as int);
        let ghost rest = names.deep_view().skip(from + 1);
        let ghost before = *self;
        let ghost content = content_of(file);
        let name = names[from].as_str();
        let is_last = from + 1 == names.len();
        proof {
            assert(path[0] == name@);
            assert(path.drop_first() =~= rest);
            before.lemma_store_error_step(path);
        }
        match self.position(name) {
            None => {
                if is_last {
                    if let Some(f) = file {
                        self.entries.push(DirEntry { name: names[from].clone(), node: Node::File(f) });
                        proof {
                            assert forall|other: Seq<char>| #[trigger]
                                self.child(other) == (if other == name@ {
                                    Some(Node::File(f))
                                } else {
                                    before.child(other)
                                }) by {
                                before.lemma_pushed(*self, other);
                            }
                            before.lemma_pushed(*self, name@);
                        }
                    }
                    proof {
                        assert forall|q: Components| #[trigger]
                            self.entry(q) == stored(before.entries(), path, content)(q) by {
                            before.lemma_stored_leaf(*self, path, content, q);
                        }
                    }
                    Ok(())
                } else {
                    let mut dir = DirNode::new();
                    let ghost fresh = dir;
                    proof {
                        fresh.lemma_empty();
                        fresh.lemma_store_error_empty(rest);
                    }
                    let r = dir.store(names, from + 1, file);
                    self.entries.push(DirEntry { name: names[from].clone(), node: Node::Dir(dir) });
                    proof {
                        assert forall|other: Seq<char>| #[trigger]
                            self.child(other) == (if other == name@ {
                                Some(Node::Dir(dir))
                            } else {
                                before.child(other)
                            }) by {
                            before.lemma_pushed(*self, other);
                        }
                        before.lemma_pushed(*self, name@);
                        assert forall|q: Components| #[trigger]
                            self.entry(q) == stored(before.entries(), path, content)(q) by {
                            before.lemma_stored_below(*self, fresh, dir, path, content, q);
                        }
                    }
                    r
                }
            },
            Some(i) => {
                let is_dir = match &self.entries[i].node {
                    Node::Dir(_) => true,
                    Node::File(_) => false,
                };
                if !is_dir {
                    if is_last {
                        if let Some(f) = file {
                            self.entries[i].node = Node::File(f);
                            proof {
                                assert forall|other: Seq<char>| #[trigger]
                                    self.child(other) == (if other == name@ {
                                        Some(Node::File(f))
                                    } else {
                                        before.child(other)
                                    }) by {
                                    before.lemma_replaced(*self, i as int, other);
                                }
                                before.lemma_replaced(*self, i as int, name@);
                            }
                        }
                        proof {
                            assert forall|q: Components| #[trigger]
                                self.entry(q) == stored(before.entries(), path, content)(q) by {
                                before.lemma_stored_leaf(*self, path, content, q);
                            }
                        }
                        Ok(())
                    } else {
                        Err(
                            IoPathError::new(
                                IoError::new(ErrorKind::NotADirectory, "Not a directory"),
                                name,
                            ),
                        )
                    }
                } else if is_last {
                    Err(
                        IoPathError::new(
                            IoError::new(
                                ErrorKind::IsADirectory,
                                "A directory with the same name already exists",
                            ),
                            name,
                        ),
                    )
                } else {
                    match &mut self.entries[i].node {
                        Node::File(_) => {
                            proof {
                                assert(false);
                            }
                            Ok(())
                        },
                        Node::Dir(dir) => {
                            let ghost below = *dir;
                            proof {
                                before.lemma_child_wf(name@);
                            }
                            let r = dir.store(names, from + 1, file);
                            let ghost changed = *dir;
                            proof {
                                assert forall|other: Seq<char>| #[trigger]
                                    self.child(other) == (if other == name@ {
                                        Some(Node::Dir(changed))
                                    } else {
                                        before.child(other)
                                    }) by {
                                    before.lemma_replaced(*self, i as int, other);
                                }
                                before.lemma_replaced(*self, i as int, name@);
                                if store_error(below.entries(), rest) is None {
                                    assert forall|q: Components| #[trigger]
                                        self.entry(q) == stored(before.entries(), path, content)(
                                            q,
                                        ) by {
                                        before.lemma_stored_below(
                                            *self,
                                            below,
                                            changed,
                                            path,
                                            content,
                                            q,
                                        );
                                    }
                                } else {
                                    assert forall|q: Components| #[trigger]
                                        self.entry(q) == before.entry(q) by {
                                        before.lemma_entries_changed(*self, name@, q);
                                        if q.len() > 0 {
                                            before.lemma_entry_step(q);
                                            self.lemma_entry_step(q);
                                        }
                                    }
                                }
                            }
                            r
                        },
                    }
                }
            },
        }
    }

    /// The error of a removal, told from the node under the path's first
    /// component.
    proof fn lemma_remove_error_step(&self, path: Components)
        requires
            self.wf(),
            path.len() > 0,
        ensures
            remove_error(self.entries(), path) == (match self.child(path[0]) {
                Some(Node::Dir(d)) => if path.len() == 1 {
                    if d.empty() {
                        None
                    } else {
                        Some(ErrorKind::DirectoryNotEmpty)
                    }
                } else {
                    remove_error(d.entries(), path.drop_first())
                },
                Some(Node::File(f)) => if path.len() == 1 {
                    None
                } else {
                    Some(ErrorKind::NotFound)
                },
                None => Some(ErrorKind::NotFound),
            }),
    {
        self.lemma_entry_step(path);
        self.lemma_child_wf(path[0]);
        let rest = path.drop_first();
        assert forall|name: Seq<char>|
            self.entry(#[trigger] path.push(name)) == (match self.child(path[0]) {
                Some(Node::Dir(d)) => d.entry(rest.push(name)),
                _ => None,
            }) by {
            let q = path.push(name);
            self.lemma_entry_step(q);
            assert(q.drop_first() =~= rest.push(name));
            assert(q[0] == path[0]);
        }
        match self.child(path[0]) {
            Some(Node::Dir(d)) => {
                if has_children(self.entries(), path) {
                    let name = choose|name: Seq<char>| (#[trigger] self.entries()(path.push(name))) is Some;
                    assert(d.entries()(rest.push(name)) is Some);
                }
                if has_children(d.entries(), rest) {
                    let name = choose|name: Seq<char>| (#[trigger] d.entries()(rest.push(name))) is Some;
                    assert(self.entries()(path.push(name)) is Some);
                }
                if path.len() == 1 {
                    assert(rest =~= seq![]);
                    if d.empty() {
                        d.lemma_empty();
                    } else {
                        d.lemma_not_empty();
                    }
                }
            },
            _ => {
                if has_children(self.entries(), path) {
                    let name = choose|name: Seq<char>| (#[trigger] self.entries()(path.push(name))) is Some;
                    assert(false);
                }
            },
        }
    }

    /// The entries after the node under the single component of `path` was
    /// removed.
    proof fn lemma_removed_leaf(&self, after: DirNode, path: Components, q: Components)
        requires
            self.wf(),
            path.len() == 1,
            self.child(path[0]) matches Some(Node::Dir(d)) ==> d.empty(),
            after.child(path[0]) is None,
            forall|other: Seq<char>|
                other != path[0] ==> #[trigger] after.child(other) == self.child(other),
        ensures
            after.entry(q) == without(self.entries(), path)(q),
    {
        if q.len() > 0 {
            self.lemma_entry_step(q);
            after.lemma_entry_step(q);
            if q[0] == path[0] {
                if q.len() == 1 {
                    assert(q =~= path);
                } else {
                    match self.child(path[0]) {
                        Some(Node::Dir(d)) => {
                            d.lemma_empty();
                        },
                        _ => {},
                    }
                }
            }
        }
    }

    /// The entries after the directory under the first component of `path`
    /// lost what was at the rest of the path.
    proof fn lemma_removed_below(
        &self,
        after: DirNode,
        below: DirNode,
        changed: DirNode,
        path: Components,
        q: Components,
    )
        requires
            path.len() > 1,
            self.child(path[0]) == Some(Node::Dir(below)),
            after.child(path[0]) == Some(Node::Dir(changed)),
            forall|other: Seq<char>|
                other != path[0] ==> #[trigger] after.child(other) == self.child(other),
            forall|p: Components| #[trigger]
                changed.entry(p) == without(below.entries(), path.drop_first())(p),
        ensures
            after.entry(q) == without(self.entries(), path)(q),
    {
        let rest = path.drop_first();
        if q.len() > 0 {
            self.lemma_entry_step(q);
            after.lemma_entry_step(q);
            let p = q.drop_first();
            if q[0] == path[0] {
                assert(q =~= seq![q[0]] + p);
                assert(path =~= seq![path[0]] + rest);
                assert((q == path) == (p == rest));
            }
        }
    }

    /// Removes the file or the empty directory at `names[from..]`.
    pub fn remove(&mut self, names: &Vec<String>, from: usize) -> (r: IoPathResult<()>)
        requires
            old(self).wf(),
            from < names.len(),
        ensures
            final(self).wf(),
            match remove_error(old(self).entries(), names.deep_view().skip(from as int)) {
                None => r is Ok && forall|q: Components| #[trigger]
                    final(self).entry(q) == without(
                        old(self).entries(),
                        names.deep_view().skip(from as int),
                    )(q),
                Some(kind) => r matches Err(e) && e.kind() == kind && forall|q: Components| #[trigger]
                    final(self).entry(q) == old(self).entry(q),
            },
        decreases names.len() - from,
    {
        let ghost path = names.deep_view().skip(from as int);
        let ghost rest = names.deep_view().skip(from + 1);
        let ghost before = *self;
        let name = names[from].as_str();
        let is_last = from + 1 == names.len();
        proof {
            assert(path[0] == name@);
            assert(path.drop_first() =~= rest);
            before.lemma_remove_error_step(path);
        }
        if is_last {
            let r = self.delete(name);
            proof {
                if r is Ok {
                    assert forall|q: Components| #[trigger]
                        self.entry(q) == without(before.entries(), path)(q) by {
                        before.lemma_removed_leaf(*self, path, q);
                    }
                }
            }
            return r;
        }
        match self.position(name) {
            None => Err(
                IoPathError::new(
                    IoError::new(ErrorKind::NotFound, "No such file or directory"),
                    name,
                ),
            ),
            Some(i) => {
                let is_dir = match &self.entries[i].node {
                    Node::Dir(_) => true,
                    Node::File(_) => false,
                };
                if !is_dir {
                    return Err(
                        IoPathError::new(
                            IoError::new(ErrorKind::NotFound, "No such file or directory"),
                            name,
                        ),
                    );
                }
                match &mut self.entries[i].node {
                    Node::File(_) => {
                        proof {
                            assert(false);
                        }
                        Ok(())
                    },
                    Node::Dir(dir) => {
                        let ghost below = *dir;
                        proof {
                            before.lemma_child_wf(name@);
                        }
                        let r = dir.remove(names, from + 1);
                        let ghost changed = *dir;
                        proof {
                            assert forall|other: Seq<char>| #[trigger]
                                self.child(other) == (if other == name@ {
                                    Some(Node::Dir(changed))
                                } else {
                                    before.child(other)
                                }) by {
                                before.lemma_replaced(*self, i as int, other);
                            }
                            before.lemma_replaced(*self, i as int, name@);
                            if remove_error(below.entries(), rest) is None {
                                assert forall|q: Components| #[trigger]
                                    self.entry(q) == without(before.entries(), path)(q) by {
                                    before.lemma_removed_below(*self, below, changed, path, q);
                                }
                            } else {
                                assert forall|q: Components| #[trigger]
                                    self.entry(q) == before.entry(q) by {
                                    before.lemma_entries_changed(*self, name@, q);
                                    if q.len() > 0 {
                                        before.lemma_entry_step(q);
                                        self.lemma_entry_step(q);
                                    }
                                }
                            }
                        }
                        r
                    },
                }
            },
        }
    }

    /// Makes `file` the file with the given name, in place of a file that
    /// may be there; a directory with that name stays. A directory that was
    /// well formed stays so if the name is a component of a path.
    pub fn create_file(&mut self, name: &str, file: Arc<FileNode>) -> (r: IoPathResult<()>)
        requires
            old(self).unique_names(),
        ensures
            final(self).unique_names(),
            old(self).wf() && is_component(name@) ==> final(self).wf(),
            match old(self).child(name@) {
                Some(Node::Dir(_)) => r matches Err(e) && e.kind() == ErrorKind::IsADirectory
                    && e.has_path(name@) && forall|other: Seq<char>| #[trigger]
                    final(self).child(other) == old(self).child(other),
                _ => r is Ok && forall|other: Seq<char>| #[trigger]
                    final(self).child(other) == (if other == name@ {
                        Some(Node::File(file))
                    } else {
                        old(self).child(other)
                    }),
            },
    {
        let ghost before = *self;
        match self.position(name) {
            None => {
                self.entries.push(DirEntry { name: name.to_owned(), node: Node::File(file) });
                proof {
                    assert forall|other: Seq<char>| #[trigger]
                        self.child(other) == (if other == name@ {
                            Some(Node::File(file))
                        } else {
                            before.child(other)
                        }) by {
                        before.lemma_pushed(*self, other);
                    }
                    before.lemma_pushed(*self, name@);
                }
                Ok(())
            },
            Some(i) => {
                let is_dir = match &self.entries[i].node {
                    Node::Dir(_) => true,
                    Node::File(_) => false,
                };
                if is_dir {
                    return Err(
                        IoPathError::new(
                            IoError::new(
                                ErrorKind::IsADirectory,
                                "A directory with the same name already exists",
                            ),
                            name,
                        ),
                    );
                }
                self.entries[i].node = Node::File(file);
                proof {
                    assert forall|other: Seq<char>| #[trigger]
                        self.child(other) == (if other == name@ {
                            Some(Node::File(file))
                        } else {
                            before.child(other)
                        }) by {
                        before.lemma_replaced(*self, i as int, other);
                    }
                    before.lemma_replaced(*self, i as int, name@);
                }
                Ok(())
            },
        }
    }

    /// Nothing stands in the way of a store into an empty directory.
    proof fn lemma_store_error_empty(&self, path: Components)
        requires
            self.empty(),
            path.len() > 0,
        ensures
            store_error(self.entries(), path) is None,
    {
        self.lemma_empty();
        assert forall|k: int| 0 < k < path.len() implies !is_file(
            #[trigger] self.entries()(path.take(k)),
        ) by {
            assert(self.entry(path.take(k)) is None);
        }
        assert(self.entry(path) is None);
    }

    /// The entries after the node under the single component of `path` was
    /// set to the file with `content`, or left as it was where there is no
    /// content and no directory under that name.
    proof fn lemma_stored_leaf(
        &self,
        after: DirNode,
        path: Components,
        content: Option<Seq<u8>>,
        q: Components,
    )
        requires
            path.len() == 1,
            !(self.child(path[0]) matches Some(Node::Dir(_))),
            match content {
                Some(c) => after.child(path[0]) matches Some(Node::File(f)) && f@ == c,
                None => after.child(path[0]) == self.child(path[0]),
            },
            forall|other: Seq<char>|
                other != path[0] ==> #[trigger] after.child(other) == self.child(other),
        ensures
            after.entry(q) == stored(self.entries(), path, content)(q),
    {
        if q.len() == 0 {
            assert(is_proper_prefix(q, path)) by {
                assert(path.take(0) =~= q);
            }
        } else {
            self.lemma_entry_step(q);
            after.lemma_entry_step(q);
            if is_proper_prefix(q, path) {
                assert(false);
            }
            if q == path {
            } else if q[0] == path[0] {
                assert(q.len() > 1) by {
                    if q.len() == 1 {
                        assert(q =~= path);
                    }
                }
            }
        }
    }

    /// The entries after the directory under the first component of `path`
    /// took in a store of the rest of the path.
    proof fn lemma_stored_below(
        &self,
        after: DirNode,
        below: DirNode,
        changed: DirNode,
        path: Components,
        content: Option<Seq<u8>>,
        q: Components,
    )
        requires
            path.len() > 1,
            self.child(path[0]) is None && below.empty() || self.child(path[0]) == Some(
                Node::Dir(below),
            ),
            after.child(path[0]) == Some(Node::Dir(changed)),
            forall|other: Seq<char>|
                other != path[0] ==> #[trigger] after.child(other) == self.child(other),
            forall|p: Components| #[trigger]
                changed.entry(p) == stored(below.entries(), path.drop_first(), content)(p),
        ensures
            after.entry(q) == stored(self.entries(), path, content)(q),
    {
        let rest = path.drop_first();
        if q.len() == 0 {
            assert(is_proper_prefix(q, path)) by {
                assert(path.take(0) =~= q);
            }
        } else {
            self.lemma_entry_step(q);
            after.lemma_entry_step(q);
            let p = q.drop_first();
            if q[0] == path[0] {
                assert(after.entry(q) == changed.entry(p));
                assert(q =~= seq![q[0]] + p);
                assert(path =~= seq![path[0]] + rest);
                assert((q == path) == (p == rest));
                assert(is_proper_prefix(q, path) == is_proper_prefix(p, rest)) by {
                    if is_proper_prefix(q, path) {
                        assert(rest.take(p.len() as int) =~= path.take(q.len() as int).drop_first());
                    }
                    if is_proper_prefix(p, rest) {
                        assert(path.take(q.len() as int) =~= seq![path[0]] + rest.take(
                            p.len() as int,
                        ));
                        assert(q =~= seq![q[0]] + p);
                    }
                }
                if self.child(path[0]) is None {
                    below.lemma_empty();
                    if p.len() == 0 {
                        assert(is_proper_prefix(p, rest)) by {
                            assert(rest.take(0) =~= p);
                        }
                    }
                }
            } else {
                if q == path {
                    assert(false);
                }
                if is_proper_prefix(q, path) {
                    assert(path.take(q.len() as int)[0] == q[0]);
                    assert(false);
                }
            }
        }
    }

    proof fn lemma_removed(&self, after: DirNode, i: int, other: Seq<char>)
        requires
            self.wf(),
            0 <= i < self.entries.len(),
            after.entries@ == self.entries@.remove(i),
        ensures
            after.wf(),
            after.child(other) == (if other == self.entries[i].name@ {
                None
            } else {
                self.child(other)
            }),
    {
        reveal(DirNode::wf);
        assert forall|a: int, b: int| 0 <= a < b < after.entries.len() implies (
        #[trigger] after.entries[a]).name@ != (#[trigger] after.entries[b]).name@ by {
            let a0 = if a < i { a } else { a + 1 };
            let b0 = if b < i { b } else { b + 1 };
            assert(after.entries[a] == self.entries[a0]);
            assert(after.entries[b] == self.entries[b0]);
        }
        assert forall|a: int| 0 <= a < after.entries.len() implies ((
        #[trigger] after.entries[a]).node matches Node::Dir(d) ==> d.wf()) by {
            let a0 = if a < i { a } else { a + 1 };
            assert(after.entries[a] == self.entries[a0]);
        }
        assert forall|a: int| 0 <= a < after.entries.len() implies is_component(
            (#[trigger] after.entries[a]).name@,
        ) by {
            let a0 = if a < i { a } else { a + 1 };
            assert(after.entries[a] == self.entries[a0]);
        }
        if after.has(other) {
            let a = after.index_of(other);
            let a0 = if a < i { a } else { a + 1 };
            assert(after.entries[a] == self.entries[a0]);
            self.lemma_child_at(a0);
            self.lemma_child_at(i);
        } else if self.has(other) {
            let b = self.index_of(other);
            if b != i {
                let b1 = if b < i { b } else { b - 1 };
                assert(after.entries[b1] == self.entries[b]);
                assert(false);
            }
            self.lemma_child_at(i);
        }
    }

    proof fn lemma_replaced(&self, after: DirNode, i: int, other: Seq<char>)
        requires
            self.wf() || self.unique_names(),
            0 <= i < self.entries.len(),
            after.entries.len() == self.entries.len(),
            forall|j: int| 0 <= j < self.entries.len() && j != i ==> after.entries[j] == self.entries[j],
            after.entries[i].name@ == self.entries[i].name@,
        ensures
            after.unique_names(),
            self.wf() && (after.entries[i].node matches Node::Dir(d) ==> d.wf()) ==> after.wf(),
            after.child(other) == (if other == self.entries[i].name@ {
                Some(after.entries[i].node)
            } else {
                self.child(other)
            }),
    {
        reveal(DirNode::wf);
        assert forall|a: int, b: int| 0 <= a < b < after.entries.len() implies (
        #[trigger] after.entries[a]).name@ != (#[trigger] after.entries[b]).name@ by {
            assert(after.entries[a].name@ == self.entries[a].name@);
            assert(after.entries[b].name@ == self.entries[b].name@);
        }
        assert(after.unique_names());
        if self.wf() && (after.entries[i].node matches Node::Dir(d) ==> d.wf()) {
            assert forall|a: int| 0 <= a < after.entries.len() implies is_component(
                (#[trigger] after.entries[a]).name@,
            ) by {
                assert(after.entries[a].name@ == self.entries[a].name@);
            }
            assert forall|a: int| 0 <= a < after.entries.len() implies ((
            #[trigger] after.entries[a]).node matches Node::Dir(d) ==> d.wf()) by {
                if a != i {
                    assert(after.entries[a] == self.entries[a]);
                }
            }
            assert(after.wf());
        }
        if after.has(other) {
            let a = after.index_of(other);
            assert(after.entries[a].name@ == self.entries[a].name@);
            after.lemma_child_at(a);
            self.lemma_child_at(a);
            after.lemma_child_at(i);
        } else if self.has(other) {
            let b = self.index_of(other);
            assert(after.entries[b].name@ == self.entries[b].name@);
            assert(false);
        }
    }

    proof fn lemma_pushed(&self, after: DirNode, other: Seq<char>)
        requires
            self.wf() || self.unique_names(),
            after.entries.len() == self.entries.len() + 1,
            forall|j: int| 0 <= j < self.entries.len() ==> after.entries[j] == self.entries[j],
            !self.has(after.entries[self.entries.len() as int].name@),
        ensures
            after.unique_names(),
            self.wf() && is_component(after.entries[self.entries.len() as int].name@) && (
            after.entries[self.entries.len() as int].node matches Node::Dir(d) ==> d.wf())
                ==> after.wf(),
            after.child(other) == (if other == after.entries[self.entries.len() as int].name@ {
                Some(after.entries[self.entries.len() as int].node)
            } else {
                self.child(other)
            }),
    {
        reveal(DirNode::wf);
        let n = self.entries.len() as int;
        assert forall|a: int, b: int| 0 <= a < b < after.entries.len() implies (
        #[trigger] after.entries[a]).name@ != (#[trigger] after.entries[b]).name@ by {
            if b == n {
                assert(after.entries[a] == self.entries[a]);
            } else {
                assert(after.entries[a] == self.entries[a]);
                assert(after.entries[b] == self.entries[b]);
            }
        }
        assert(after.unique_names());
        if self.wf() && is_component(after.entries[n].name@) && (after.entries[n].node matches Node::Dir(
            d,
        ) ==> d.wf()) {
            assert forall|a: int| 0 <= a < after.entries.len() implies ((
            #[trigger] after.entries[a]).node matches Node::Dir(d) ==> d.wf()) by {
                if a < n {
                    assert(after.entries[a] == self.entries[a]);
                }
            }
            assert forall|a: int| 0 <= a < after.entries.len() implies is_component(
                (#[trigger] after.entries[a]).name@,
            ) by {
                if a < n {
                    assert(after.entries[a] == self.entries[a]);
                }
            }
            assert(after.wf());
        }
        after.lemma_child_at(n);
        if after.has(other) {
            let a = after.index_of(other);
            after.lemma_child_at(a);
            if a < n {
                assert(after.entries[a] == self.entries[a]);
                self.lemma_child_at(a);
            }
        } else if self.has(other) {
            let b = self.index_of(other);
            assert(after.entries[b] == self.entries[b]);
            assert(false);
        }
    }
}

} // verus!
