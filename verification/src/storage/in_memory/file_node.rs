//! The files of the in-memory storage, with their readers and writers.

use crate::error::IoError;
use crate::storage::in_memory::path_iter::is_component;
use crate::util::io::{Read, Write};
use std::sync::Arc;
use vstd::prelude::*;

verus! {

/// A file: its content, which never changes once the file is part of a
/// storage.
#[derive(Debug)]
pub struct FileNode {
    content: Vec<u8>,
}

impl View for FileNode {
    type V = Seq<u8>;

    closed spec fn view(&self) -> Seq<u8> {
        self.content@
    }
}

/// Hands out a further reference to a shared file with `Arc::clone`; both
/// point to the same file.
#[verifier::external_body]
pub(crate) fn share(file_node: &Arc<FileNode>) -> (shared: Arc<FileNode>)
    ensures
        shared == *file_node,
{
    Arc::clone(file_node)
}

impl FileNode {
    /// Creates an empty file.
    pub fn new() -> (file_node: Self)
        ensures
            file_node@ == Seq::<u8>::empty(),
    {
        FileNode { content: Vec::new() }
    }

    /// Creates a file with the given content.
    pub fn with_content(content: Vec<u8>) -> (file_node: Self)
        ensures
            file_node@ == content@,
    {
        FileNode { content }
    }

    /// Returns a reader that starts at the beginning of the file.
    pub fn reader(file_node: &Arc<FileNode>) -> (reader: FileReader)
        ensures
            reader.remaining() == file_node@,
            reader.reliable(),
    {
        FileReader::new(share(file_node))
    }

    /// Returns a writer whose content is to become the file at `target`.
    pub fn writer(target: Vec<String>) -> (writer: FileWriter)
        ensures
            writer.target() == target.deep_view(),
            writer.written() == Seq::<u8>::empty(),
    {
        FileWriter::new(target)
    }

    /// The size of the file in bytes.
    pub fn size(&self) -> (size: usize)
        ensures
            size == self@.len(),
    {
        self.content.len()
    }
}

/// Collects what is to become the content of a file.
#[derive(Debug)]
pub struct FileWriter {
    target: Vec<String>,
    buffer: Vec<u8>,
}

impl FileWriter {
    /// Creates a writer for the file with the given path components.
    pub fn new(target: Vec<String>) -> (writer: Self)
        ensures
            writer.target() == target.deep_view(),
            writer.written() == Seq::<u8>::empty(),
    {
        FileWriter { target, buffer: Vec::new() }
    }

    /// Takes the writer apart into its target and what was written.
    pub fn into_parts(self) -> (parts: (Vec<String>, Vec<u8>))
        ensures
            parts.0.deep_view() == self.target(),
            parts.1@ == self.written(),
    {
        (self.target, self.buffer)
    }
}

impl Write for FileWriter {
    closed spec fn written(&self) -> Seq<u8> {
        self.buffer@
    }

    open spec fn reliable(&self) -> bool {
        forall|i: int| 0 <= i < self.target().len() ==> is_component(#[trigger] self.target()[i])
    }

    closed spec fn target(&self) -> Seq<Seq<char>> {
        self.target.deep_view()
    }

    /// The writer has no buffer besides what it collects for its file.
    open spec fn flushed(&self) -> bool {
        true
    }

    fn write(&mut self, buf: &[u8]) -> (r: Result<usize, IoError>) {
        self.buffer.extend_from_slice(buf);
        assert(self.target() == old(self).target());
        Ok(buf.len())
    }

    fn flush(&mut self) -> (r: Result<(), IoError>) {
        Ok(())
    }
}

/// Reads the content of a file from a position onwards.
#[derive(Debug)]
pub struct FileReader {
    file_node: Arc<FileNode>,
    offset: usize,
}

impl FileReader {
    /// Creates a reader that starts at the beginning of the file.
    pub fn new(file_node: Arc<FileNode>) -> (reader: Self)
        ensures
            reader.remaining() == file_node@,
            reader.reliable(),
    {
        let reader = FileReader { file_node, offset: 0 };
        assert(reader.remaining() =~= file_node@);
        reader
    }
}

impl Read for FileReader {
    closed spec fn remaining(&self) -> Seq<u8> {
        if self.offset <= self.file_node@.len() {
            self.file_node@.skip(self.offset as int)
        } else {
            Seq::<u8>::empty()
        }
    }

    open spec fn reliable(&self) -> bool {
        true
    }

    fn read(&mut self, max_len: usize) -> (r: Result<Vec<u8>, IoError>) {
        let size = self.file_node.content.len();
        if self.offset >= size {
            let bytes: Vec<u8> = Vec::new();
            proof {
                let rest = self.remaining();
                assert(rest =~= Seq::<u8>::empty());
                assert(bytes@ =~= rest.take(0));
                assert(rest =~= rest.skip(0));
            }
            return Ok(bytes);
        }
        let available = size - self.offset;
        let n = if max_len <= available {
            max_len
        } else {
            available
        };
        let bytes = vstd::slice::slice_to_vec(
            vstd::slice::slice_subrange(self.file_node.content.as_slice(), self.offset, self.offset + n),
        );
        proof {
            let all = self.file_node@;
            assert(bytes@ =~= all.skip(self.offset as int).take(n as int));
            assert(all.skip(self.offset as int).skip(n as int) =~= all.skip(self.offset + n));
        }
        self.offset = self.offset + n;
        Ok(bytes)
    }
}

} // verus!
