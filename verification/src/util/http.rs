//! A client for HTTP/1.1 over one connection.
//!
//! A request goes through its states strictly forward: first the headers,
//! then the body, if any, then the status of the response, its headers and
//! its body. Each state is a type of its own, so that a header cannot be
//! added once the body has started and a response cannot be read before the
//! request is complete.

pub mod error;
pub mod laws;
pub mod message;
pub mod numbers;
pub mod request;
pub mod response;

pub use crate::util::http::message::{Header, HttpStatus};
