//! Helpers that are not tied to one of the main concepts.

pub mod clock;
pub mod close;
pub mod encoding;
pub mod http;
pub mod humanbytes;
pub mod io;
pub mod text;
