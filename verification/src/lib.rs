//! A small synchronous multithreaded web framework: request parsing, routing,
//! responses, middleware and extensions, with their contracts.
use vstd::prelude::*;

pub mod text;
pub mod common;
pub mod error;
pub mod header;
pub mod method;
pub mod other;
pub mod cookie;
pub mod path;
pub mod internal;
pub mod http;
pub mod extensions;
pub mod request;
pub mod response;
pub mod middleware;
pub mod context;
pub mod handle;

verus! {

} // verus!
