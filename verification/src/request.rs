//! HTTP requests as the server parses them.
use vstd::prelude::*;

use crate::header::Header;
use crate::http::method::Method;
use crate::http::query::Query;

verus! {

/// An IP address.
#[derive(Debug, Clone, Copy, PartialEq, Eq, Structural)]
pub enum IpAddr {
    /// An IPv4 address, as its 32 bits (first octet highest).
    V4(u32),
    /// An IPv6 address, as its 128 bits (first segment highest).
    V6(u128),
}

/// The address of the peer of a connection.
#[derive(Debug, Clone, Copy, PartialEq, Eq, Structural)]
pub struct SocketAddress {
    /// The IP address.
    pub ip: IpAddr,
    /// The port.
    pub port: u16,
}

/// An HTTP request.
#[derive(Debug)]
pub struct Request {
    /// Request method.
    pub method: Method,
    /// Request path, without the query.
    pub path: String,
    /// HTTP version of the request, as written in the request line.
    pub version: String,
    /// Path query.
    pub query: Query,
    /// Request headers.
    pub headers: Vec<Header>,
    /// Request body.
    pub body: Vec<u8>,
    /// The address of the client.
    pub address: SocketAddress,
}

} // verus!
