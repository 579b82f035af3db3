//! Encodings used by HTTP: Base64, URL (percent) encoding, and SHA-1.
pub mod base64;
pub mod url;
pub mod sha1;
