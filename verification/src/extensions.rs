//! Useful extensions to the base server: middleware for static files, rate
//! limiting, logging, ranges, and more.
pub mod content_type;
pub mod path_normalizer;
pub mod util;
pub mod request_id;
pub mod head;
pub mod trace;
pub mod range;
pub mod redirect;
pub mod serve_static;
pub mod real_ip;
pub mod logger;
pub mod ratelimit;
pub mod cache;
pub mod date;
