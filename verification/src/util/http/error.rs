//! Error type for HTTP client operations.

use crate::error::{ErrorKind, IoError};
use crate::util::text::{append_str, string_from_chars};
use vstd::prelude::*;

verus! {

/// An error that can occur during HTTP client operations.
#[derive(Debug, Clone)]
pub enum HttpClientError {
    /// An invalid URL scheme was encountered.
    InvalidScheme(String),
    /// An invalid DNS name was encountered.
    InvalidDnsName(String),
    /// The URL is missing a host.
    MissingHost,
    /// An unsupported feature was requested.
    UnsupportedFeature(String),
    /// An I/O error occurred.
    IoError(IoError),
    /// A TLS error occurred.
    TlsError(String),
}

impl HttpClientError {
    /// The kind of I/O error that the error is reported as.
    pub open spec fn kind(self) -> ErrorKind {
        match self {
            HttpClientError::InvalidScheme(_) => ErrorKind::InvalidInput,
            HttpClientError::InvalidDnsName(_) => ErrorKind::InvalidInput,
            HttpClientError::MissingHost => ErrorKind::InvalidInput,
            HttpClientError::UnsupportedFeature(_) => ErrorKind::Unsupported,
            HttpClientError::IoError(e) => e.kind,
            HttpClientError::TlsError(_) => ErrorKind::Other,
        }
    }

    /// An error about data that cannot be parsed.
    pub fn invalid_data(msg: &str) -> (e: Self)
        ensures
            e matches HttpClientError::IoError(io) && io.kind == ErrorKind::InvalidData
                && io.message@ == msg@,
            e.kind() == ErrorKind::InvalidData,
    {
        HttpClientError::IoError(IoError::new(ErrorKind::InvalidData, msg))
    }

    /// An error about a feature that is not implemented.
    pub fn unsupported(feature: &str) -> (e: Self)
        ensures
            e matches HttpClientError::UnsupportedFeature(f) && f@ == feature@,
            e.kind() == ErrorKind::Unsupported,
    {
        HttpClientError::UnsupportedFeature(feature.to_owned())
    }

    /// The error of an I/O operation as an HTTP client error.
    pub fn from_io(error: IoError) -> (e: Self)
        ensures
            e == HttpClientError::IoError(error),
    {
        HttpClientError::IoError(error)
    }

    /// A description of the error.
    pub fn message(&self) -> (text: String)
        ensures
            text@ == self.describe(),
    {
        let mut chars: Vec<char> = Vec::new();
        match self {
            HttpClientError::InvalidScheme(scheme) => {
                append_str(&mut chars, "unknown URL scheme: ");
                append_str(&mut chars, scheme.as_str());
            },
            HttpClientError::InvalidDnsName(hostname) => {
                append_str(&mut chars, "invalid DNS name: ");
                append_str(&mut chars, hostname.as_str());
            },
            HttpClientError::MissingHost => {
                append_str(&mut chars, "missing host");
            },
            HttpClientError::UnsupportedFeature(feature) => {
                append_str(&mut chars, "unsupported feature: ");
                append_str(&mut chars, feature.as_str());
            },
            HttpClientError::IoError(error) => {
                append_str(&mut chars, "I/O error: ");
                append_str(&mut chars, error.message.as_str());
            },
            HttpClientError::TlsError(error) => {
                append_str(&mut chars, "TLS error: ");
                append_str(&mut chars, error.as_str());
            },
        }
        string_from_chars(chars.as_slice())
    }

    /// The description of the error.
    pub open spec fn describe(&self) -> Seq<char> {
        match self {
            HttpClientError::InvalidScheme(scheme) => "unknown URL scheme: "@ + scheme@,
            HttpClientError::InvalidDnsName(hostname) => "invalid DNS name: "@ + hostname@,
            HttpClientError::MissingHost => "missing host"@,
            HttpClientError::UnsupportedFeature(feature) => "unsupported feature: "@ + feature@,
            HttpClientError::IoError(error) => "I/O error: "@ + error.message@,
            HttpClientError::TlsError(error) => "TLS error: "@ + error@,
        }
    }

    /// The error as an I/O error, of the kind that it is reported as and
    /// with its description as message.
    pub fn into_io_error(self) -> (e: IoError)
        ensures
            e.kind == self.kind(),
            self matches HttpClientError::IoError(io) ==> e == io,
    {
        match self {
            HttpClientError::IoError(error) => error,
            HttpClientError::InvalidScheme(_) => IoError {
                kind: ErrorKind::InvalidInput,
                message: self.message(),
            },
            HttpClientError::InvalidDnsName(_) => IoError {
                kind: ErrorKind::InvalidInput,
                message: self.message(),
            },
            HttpClientError::MissingHost => IoError {
                kind: ErrorKind::InvalidInput,
                message: self.message(),
            },
            HttpClientError::UnsupportedFeature(_) => IoError {
                kind: ErrorKind::Unsupported,
                message: self.message(),
            },
            HttpClientError::TlsError(_) => IoError {
                kind: ErrorKind::Other,
                message: self.message(),
            },
        }
    }
}

} // verus!
