//! Lower level pieces of the server: encodings, routing and request parsing.
pub mod encoding;
pub mod path;
pub mod router;
pub mod http;
pub mod misc;
pub mod common;
pub mod handle;
pub mod thread_pool;
