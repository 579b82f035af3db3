//! Getting the real IP of a client through a reverse proxy.
//!
//! Make sure the reverse proxy overwrites the header on incoming requests so
//! that clients cannot spoof their addresses.
use vstd::prelude::*;

use crate::request::{IpAddr, Request};
use crate::response::{get_header, header_index};

verus! {

/// The address is local: IPv4 loopback (127.0.0.0/8), private (10.0.0.0/8,
/// 172.16.0.0/12, 192.168.0.0/16) or with a first octet of 172; IPv6
/// loopback (::1) or unique local (fc00::/7).
pub open spec fn is_local_spec(ip: IpAddr) -> bool {
    match ip {
        IpAddr::V4(a) => {
            let o0 = a >> 24u32;
            let o1 = (a >> 16u32) & 0xff;
            o0 == 127 || o0 == 172 || o0 == 10 || (o0 == 172 && (o1 & 0xf0) == 16) || (o0 == 192 && o1
                == 168)
        },
        IpAddr::V6(a) => a == 1 || ((a >> 112u128) & 0xfe00) == 0xfc00,
    }
}

/// Whether an address is local (loopback or private).
pub fn is_local(ip: IpAddr) -> (r: bool)
    ensures
        r == is_local_spec(ip),
{
    match ip {
        IpAddr::V4(a) => {
            let o0 = a >> 24u32;
            let o1 = (a >> 16u32) & 0xff;
            o0 == 127 || o0 == 172 || o0 == 10 || (o0 == 172 && (o1 & 0xf0) == 16) || (o0 == 192 && o1 == 168)
        },
        IpAddr::V6(a) => a == 1 || ((a >> 112u128) & 0xfe00) == 0xfc00,
    }
}

/// The real address of a client: the address of the connection unless it
/// is local (so likely a reverse proxy), in which case the address that the
/// forwarding header holds, when it holds one (`forwarded`).
pub open spec fn real_ip_spec(req: Request, forwarded: Option<IpAddr>) -> IpAddr {
    let ip = req.address.ip;
    if !is_local_spec(ip) {
        ip
    } else {
        match forwarded {
            Some(a) => a,
            None => ip,
        }
    }
}

/// The value of the forwarding header `header` of a request, if it has one.
pub fn forwarded_value<'a>(req: &'a Request, header: &str) -> (r: Option<&'a String>)
    ensures
        match header_index(req.headers@, header@) {
            Some(i) => r matches Some(v) && v@ == req.headers@[i].value@,
            None => r is None,
        },
{
    get_header(req.headers.as_slice(), header)
}

/// The real address of a client, where `forwarded` is the address that its
/// forwarding header holds, if it has one that parses as an address.
pub fn real_ip_given(req: &Request, forwarded: Option<IpAddr>) -> (r: IpAddr)
    ensures
        r == real_ip_spec(*req, forwarded),
{
    let ip = req.address.ip;
    if !is_local(ip) {
        return ip;
    }
    match forwarded {
        Some(a) => a,
        None => ip,
    }
}

} // verus!
