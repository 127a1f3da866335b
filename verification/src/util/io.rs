//! Readers and writers of byte streams.
//!
//! A reader or writer that is `reliable` behaves exactly as its model says:
//! it never fails and never transfers less than it was asked to. Of any other
//! reader or writer, such as one on a socket, nothing is known in advance.
//!
//! A writer may hold back what was written in a buffer. Its model tells
//! whether it does, and a flush of a reliable writer leaves nothing held
//! back.

use crate::error::{ErrorKind, IoError};
use vstd::prelude::*;

verus! {

/// A source of bytes.
pub trait Read {
    /// The bytes that are still to be read. Of a reader that is not
    /// reliable, nothing is known: its model is empty.
    open spec fn remaining(&self) -> Seq<u8> {
        Seq::empty()
    }

    /// Whether the reader behaves exactly as `remaining` says. A reader
    /// is not reliable unless it says so.
    open spec fn reliable(&self) -> bool {
        false
    }

    /// Reads at most `max_len` bytes. An empty result for a `max_len` greater
    /// than zero means that the end has been reached.
    fn read(&mut self, max_len: usize) -> (r: Result<Vec<u8>, IoError>)
        ensures
            final(self).reliable() == old(self).reliable(),
            old(self).reliable() ==> read_spec(
                old(self).remaining(),
                max_len,
                final(self).remaining(),
                r,
            ),
    ;
}

/// What a reliable reader does on `read`.
pub open spec fn read_spec(
    before: Seq<u8>,
    max_len: usize,
    after: Seq<u8>,
    r: Result<Vec<u8>, IoError>,
) -> bool {
    let n = if max_len <= before.len() {
        max_len as int
    } else {
        before.len() as int
    };
    r matches Ok(bytes) && bytes@ == before.take(n) && after == before.skip(n)
}

/// A sink of bytes.
pub trait Write {
    /// The bytes that were written so far. Of a writer that is not
    /// reliable, nothing is known: its model is empty.
    open spec fn written(&self) -> Seq<u8> {
        Seq::empty()
    }

    /// Whether the writer behaves exactly as `written` says. A writer is
    /// not reliable unless it says so.
    open spec fn reliable(&self) -> bool {
        false
    }

    /// The components of the path that the bytes are written for; empty for
    /// a writer that does not write to a path.
    open spec fn target(&self) -> Seq<Seq<char>> {
        Seq::empty()
    }

    /// Whether nothing that was written waits in a buffer of the writer, so
    /// that a flush would hand nothing on. Of a writer that is not reliable,
    /// nothing is known.
    open spec fn flushed(&self) -> bool {
        false
    }

    /// Writes a prefix of `buf` and returns its length.
    fn write(&mut self, buf: &[u8]) -> (r: Result<usize, IoError>)
        ensures
            final(self).reliable() == old(self).reliable(),
            final(self).target() == old(self).target(),
            old(self).reliable() ==> r == Ok::<usize, IoError>(buf.len()) && final(self).written()
                == old(self).written() + buf@,
    ;

    /// Hands buffered bytes on to where they are written to, so that
    /// nothing waits in a buffer any more. What was written stays the same.
    fn flush(&mut self) -> (r: Result<(), IoError>)
        ensures
            final(self).reliable() == old(self).reliable(),
            final(self).target() == old(self).target(),
            old(self).reliable() ==> r is Ok && final(self).written() == old(self).written()
                && final(self).flushed(),
    ;
}

/// Writes all of `buf`, by as many calls of `write` as it takes. A writer
/// that accepts nothing of a non-empty buffer, or claims to have written more
/// than it was given, ends the attempt with an error.
pub fn write_all<W: Write>(writer: &mut W, buf: &[u8]) -> (r: Result<(), IoError>)
    ensures
        final(writer).reliable() == old(writer).reliable(),
        final(writer).target() == old(writer).target(),
        old(writer).reliable() ==> r is Ok && final(writer).written() == old(writer).written()
            + buf@,
{
    let mut done: usize = 0;
    while done < buf.len()
        invariant
            done <= buf.len(),
            writer.reliable() == old(writer).reliable(),
            writer.target() == old(writer).target(),
            old(writer).reliable() ==> writer.written() == old(writer).written() + buf@.take(
                done as int,
            ),
        decreases buf.len() - done,
    {
        let rest = vstd::slice::slice_subrange(buf, done, buf.len());
        let ghost before = writer.written();
        match writer.write(rest) {
            Ok(n) => {
                if n == 0 || n > rest.len() {
                    proof {
                        assert(!old(writer).reliable());
                    }
                    return Err(IoError::new(ErrorKind::Other, "failed to write whole buffer"));
                }
                proof {
                    if old(writer).reliable() {
                        assert(n == rest.len());
                        assert(before + rest@ =~= old(writer).written() + buf@.take(done + n));
                    }
                }
                done = done + n;
            },
            Err(e) => {
                return Err(e);
            },
        }
    }
    proof {
        assert(buf@.take(done as int) =~= buf@);
    }
    Ok(())
}

/// Reads exactly `len` bytes, by as many calls of `read` as it takes. The
/// end of the data before that is an error of kind `InvalidData`.
pub fn read_exact<R: Read>(reader: &mut R, len: usize) -> (r: Result<Vec<u8>, IoError>)
    ensures
        final(reader).reliable() == old(reader).reliable(),
        r matches Ok(bytes) ==> bytes.len() == len,
        old(reader).reliable() ==> (if len <= old(reader).remaining().len() {
            r matches Ok(bytes) && bytes@ == old(reader).remaining().take(len as int)
                && final(reader).remaining() == old(reader).remaining().skip(len as int)
        } else {
            r matches Err(e) && e.kind == ErrorKind::InvalidData
        }),
{
    let mut data: Vec<u8> = Vec::new();
    while data.len() < len
        invariant
            data.len() <= len,
            reader.reliable() == old(reader).reliable(),
            old(reader).reliable() ==> data.len() <= old(reader).remaining().len() && data@ == old(
                reader,
            ).remaining().take(data.len() as int) && reader.remaining() == old(
                reader,
            ).remaining().skip(data.len() as int),
        decreases len - data.len(),
    {
        let want = len - data.len();
        match reader.read(want) {
            Ok(mut bytes) => {
                if bytes.len() == 0 || bytes.len() > want {
                    return Err(IoError::new(ErrorKind::InvalidData, "failed to fill whole buffer"));
                }
                let ghost before = data@;
                let ghost got = bytes@;
                data.append(&mut bytes);
                proof {
                    if old(reader).reliable() {
                        let all = old(reader).remaining();
                        assert(before + got =~= all.take(data.len() as int));
                        assert(all.skip(before.len() as int).skip(got.len() as int) =~= all.skip(
                            data.len() as int,
                        ));
                    }
                }
            },
            Err(e) => {
                return Err(e);
            },
        }
    }
    Ok(data)
}

} // verus!
