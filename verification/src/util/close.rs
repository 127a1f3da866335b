//! The [`Close`] trait and a [`SelfClosing`] wrapper for values that need no
//! finalization. The wrapper of a writer is a writer that hands everything
//! to the writer in it.

use crate::error::IoError;
use crate::util::io::Write;
use vstd::prelude::*;

verus! {

/// A value whose use must be finalized, where finalizing may fail.
pub trait Close: Sized {
    /// Finalizes the value.
    fn close(self) -> Result<(), IoError>;
}

/// A wrapper whose [`Close::close`] does nothing and always succeeds.
pub struct SelfClosing<T> {
    pub inner: T,
}

impl<T> SelfClosing<T> {
    /// Creates a new wrapper around the given value.
    pub fn new(inner: T) -> (s: Self)
        ensures
            s.inner == inner,
    {
        Self { inner }
    }

    /// Unwraps the inner value.
    pub fn into_inner(self) -> (inner: T)
        ensures
            inner == self.inner,
    {
        self.inner
    }
}

impl<T: Write> Write for SelfClosing<T> {
    open spec fn written(&self) -> Seq<u8> {
        self.inner.written()
    }

    open spec fn reliable(&self) -> bool {
        self.inner.reliable()
    }

    open spec fn target(&self) -> Seq<Seq<char>> {
        self.inner.target()
    }

    open spec fn flushed(&self) -> bool {
        self.inner.flushed()
    }

    /// Hands the bytes to the wrapped writer.
    fn write(&mut self, buf: &[u8]) -> (r: Result<usize, IoError>) {
        self.inner.write(buf)
    }

    /// Flushes the wrapped writer.
    fn flush(&mut self) -> (r: Result<(), IoError>) {
        self.inner.flush()
    }
}

impl<T> Close for SelfClosing<T> {
    fn close(self) -> (r: Result<(), IoError>)
        ensures
            r is Ok,
    {
        Ok(())
    }
}

} // verus!
