//! Error types used throughout the crate.

use vstd::prelude::*;

verus! {

/// The kinds of failure that storages, caches and the protocol code report.
#[derive(Debug, Clone, Copy, PartialEq, Eq, Structural)]
pub enum ErrorKind {
    /// A malformed path, a missing host, a relative path.
    InvalidInput,
    /// A file or directory is missing.
    NotFound,
    /// A file was expected where a directory is.
    IsADirectory,
    /// A directory was expected where a file is.
    NotADirectory,
    /// A directory that is to be deleted still has entries.
    DirectoryNotEmpty,
    /// Stored or received data cannot be parsed.
    InvalidData,
    /// A feature that is not implemented.
    Unsupported,
    /// Any other failure, such as one of the transport.
    Other,
}

/// An I/O error: its kind and a message for people.
#[derive(Debug, Clone)]
pub struct IoError {
    pub kind: ErrorKind,
    pub message: String,
}

impl IoError {
    /// Creates an error of the given kind.
    pub fn new(kind: ErrorKind, message: &str) -> (e: Self)
        ensures
            e.kind == kind,
            e.message@ == message@,
    {
        IoError { kind, message: message.to_owned() }
    }

    /// The kind of the error.
    pub fn kind(&self) -> (k: ErrorKind)
        ensures
            k == self.kind,
    {
        self.kind
    }
}

/// The result of an operation that may fail with an [`IoPathError`].
pub type IoPathResult<T> = Result<T, IoPathError>;

/// An I/O error that optionally includes the path that the error occurred on.
#[derive(Debug, Clone)]
pub struct IoPathError {
    pub error: IoError,
    pub path: Option<String>,
}

impl IoPathError {
    /// Creates a new `IoPathError` with the given error and path.
    pub fn new(error: IoError, path: &str) -> (e: Self)
        ensures
            e.error == error,
            e.path matches Some(p) && p@ == path@,
    {
        IoPathError { error, path: Some(path.to_owned()) }
    }

    /// Creates a new `IoPathError` with the given error and no path.
    pub fn new_no_path(error: IoError) -> (e: Self)
        ensures
            e.error == error,
            e.path is None,
    {
        IoPathError { error, path: None }
    }

    /// Returns a reference to the underlying error.
    pub fn io_error(&self) -> (e: &IoError)
        ensures
            *e == self.error,
    {
        &self.error
    }

    /// Consumes the `IoPathError` and returns the underlying error.
    pub fn into_io_error(self) -> (e: IoError)
        ensures
            e == self.error,
    {
        self.error
    }

    /// Returns a reference to the path associated with the error.
    pub fn path(&self) -> (p: &Option<String>)
        ensures
            *p == self.path,
    {
        &self.path
    }

    /// The kind of the underlying error.
    pub open spec fn kind(&self) -> ErrorKind {
        self.error.kind
    }

    /// Whether the error carries exactly the path `path`.
    pub open spec fn has_path(&self, path: Seq<char>) -> bool {
        self.path matches Some(p) && p@ == path
    }
}

/// Conversion of a plain I/O result into an [`IoPathResult`].
pub trait WithPath<T>: Sized {
    /// The result as it was before the conversion.
    spec fn plain(self) -> Result<T, IoError>;

    /// Converts the result into an `IoPathResult` without a path.
    fn no_path(self) -> (r: IoPathResult<T>)
        ensures
            match self.plain() {
                Ok(v) => r == Ok::<T, IoPathError>(v),
                Err(e) => r matches Err(pe) && pe.error == e && pe.path is None,
            },
    ;

    /// Converts the result into an `IoPathResult`, adding the given path.
    fn with_path(self, path: &str) -> (r: IoPathResult<T>)
        ensures
            match self.plain() {
                Ok(v) => r == Ok::<T, IoPathError>(v),
                Err(e) => r matches Err(pe) && pe.error == e && pe.has_path(path@),
            },
    ;
}

impl<T> WithPath<T> for Result<T, IoError> {
    open spec fn plain(self) -> Result<T, IoError> {
        self
    }

    fn no_path(self) -> (r: IoPathResult<T>) {
        match self {
            Ok(v) => Ok(v),
            Err(e) => Err(IoPathError::new_no_path(e)),
        }
    }

    fn with_path(self, path: &str) -> (r: IoPathResult<T>) {
        match self {
            Ok(v) => Ok(v),
            Err(e) => Err(IoPathError::new(e, path)),
        }
    }
}

} // verus!
