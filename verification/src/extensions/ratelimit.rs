//! Limiting the number of requests from a single address that the server handles.
use vstd::prelude::*;

use vstd::utf8::encode_utf8;

use std::collections::HashMap;

use crate::extensions::content_type::{content_type_spec, Content};
use crate::http::status::Status;
use crate::request::IpAddr;
use crate::response::{Response, ResponseBody, ResponseFlag};

verus! {

/// Limits how many requests from one address are handled in each window of time.
/// When an address is over the limit, its requests are answered by the
/// limiter's handler rather than by the routes.
pub struct RateLimiter {
    req_limit: u64,
    last_reset: u64,
    req_timeout: u64,
    /// Requests counted for each IPv4 address, by its 32 bits.
    v4: HashMap<u32, u64>,
    /// Requests counted for each IPv6 address, by its 128 bits.
    v6: HashMap<u128, u64>,
}

/// What the default handler answers a request over the limit with: status
/// 429 and the plain text `Too Many Requests`.
pub fn too_many_requests() -> (r: Response)
    ensures
        r.status == Status::TooManyRequests,
        r.data matches ResponseBody::Static(d) && d@ == encode_utf8("Too Many Requests"@),
        r.headers@.len() == 1,
        r.headers@[0].name@ == "Content-Type"@,
        r.headers@[0].value@ == content_type_spec(Content::TXT),
        r.reason is None,
        r.flag == ResponseFlag::Normal,
{
    Response::new().status(Status::TooManyRequests).text("Too Many Requests").content(Content::TXT)
}

/// The count that a map holds for a key (zero if it holds none).
pub open spec fn count_of<K>(m: Map<K, u64>, k: K) -> nat {
    if m.contains_key(k) {
        m[k] as nat
    } else {
        0
    }
}

impl RateLimiter {
    /// The most requests an address may make in a window.
    pub closed spec fn limit_of(&self) -> u64 {
        self.req_limit
    }

    /// The length of a window, in seconds.
    pub closed spec fn timeout_of(&self) -> u64 {
        self.req_timeout
    }

    /// When the current window began, in seconds.
    pub closed spec fn last_reset_of(&self) -> u64 {
        self.last_reset
    }

    /// The requests counted for an address in the current window.
    pub closed spec fn count(&self, ip: IpAddr) -> nat {
        match ip {
            IpAddr::V4(a) => count_of(self.v4@, a),
            IpAddr::V6(a) => count_of(self.v6@, a),
        }
    }

    /// A limiter of 10 requests a minute, with nothing counted.
    pub fn new() -> (r: RateLimiter)
        ensures
            r.limit_of() == 10,
            r.timeout_of() == 60,
            r.last_reset_of() == 0,
            forall|ip: IpAddr| r.count(ip) == 0,
    {
        RateLimiter { req_limit: 10, last_reset: 0, req_timeout: 60, v4: HashMap::new(), v6: HashMap::new() }
    }

    /// Set the most requests an address may make in a window.
    pub fn limit(self, limit: u64) -> (r: RateLimiter)
        ensures
            r.limit_of() == limit,
            r.timeout_of() == self.timeout_of(),
            r.last_reset_of() == self.last_reset_of(),
            forall|ip: IpAddr| r.count(ip) == self.count(ip),
    {
        RateLimiter { req_limit: limit, ..self }
    }

    /// Set the length of a window, in seconds.
    pub fn timeout(self, timeout: u64) -> (r: RateLimiter)
        ensures
            r.timeout_of() == timeout,
            r.limit_of() == self.limit_of(),
            r.last_reset_of() == self.last_reset_of(),
            forall|ip: IpAddr| r.count(ip) == self.count(ip),
    {
        RateLimiter { req_timeout: timeout, ..self }
    }

    /// Count a request from `ip`.
    pub fn add_request(&mut self, ip: IpAddr)
        requires
            old(self).count(ip) < u64::MAX,
        ensures
            final(self).count(ip) == old(self).count(ip) + 1,
            forall|other: IpAddr| other != ip ==> final(self).count(other) == old(self).count(other),
            final(self).limit_of() == old(self).limit_of(),
            final(self).timeout_of() == old(self).timeout_of(),
            final(self).last_reset_of() == old(self).last_reset_of(),
    {
        broadcast use vstd::std_specs::hash::group_hash_axioms;
        match ip {
            IpAddr::V4(a) => {
                let c: u64 = match self.v4.get(&a) {
                    Some(c) => *c,
                    None => 0,
                };
                self.v4.insert(a, c + 1);
            },
            IpAddr::V6(a) => {
                let c: u64 = match self.v6.get(&a) {
                    Some(c) => *c,
                    None => 0,
                };
                self.v6.insert(a, c + 1);
            },
        }
    }

    /// Start a new window if the current one has ended at time `now`.
    pub fn check_reset(&mut self, now: u64)
        requires
            old(self).last_reset_of() + old(self).timeout_of() <= u64::MAX,
        ensures
            final(self).limit_of() == old(self).limit_of(),
            final(self).timeout_of() == old(self).timeout_of(),
            old(self).last_reset_of() + old(self).timeout_of() <= now ==> {
                &&& final(self).last_reset_of() == now
                &&& forall|ip: IpAddr| final(self).count(ip) == 0
            },
            old(self).last_reset_of() + old(self).timeout_of() > now ==> {
                &&& final(self).last_reset_of() == old(self).last_reset_of()
                &&& forall|ip: IpAddr| final(self).count(ip) == old(self).count(ip)
            },
    {
        broadcast use vstd::std_specs::hash::group_hash_axioms;
        if self.last_reset + self.req_timeout <= now {
            self.v4 = HashMap::new();
            self.v6 = HashMap::new();
            self.last_reset = now;
        }
    }

    /// Whether an address has made as many requests as the limit allows.
    pub fn is_over_limit(&self, ip: IpAddr) -> (r: bool)
        ensures
            r == (self.count(ip) >= self.limit_of()),
    {
        broadcast use vstd::std_specs::hash::group_hash_axioms;
        let c: u64 = match ip {
            IpAddr::V4(a) => match self.v4.get(&a) {
                Some(c) => *c,
                None => 0,
            },
            IpAddr::V6(a) => match self.v6.get(&a) {
                Some(c) => *c,
                None => 0,
            },
        };
        c >= self.req_limit
    }

    /// The work after a response: start a new window if the current one
    /// has ended at time `now`, then count the request.
    pub fn end(&mut self, ip: IpAddr, now: u64)
        requires
            old(self).last_reset_of() + old(self).timeout_of() <= u64::MAX,
            old(self).count(ip) < u64::MAX,
        ensures
            final(self).limit_of() == old(self).limit_of(),
            old(self).last_reset_of() + old(self).timeout_of() <= now ==> final(self).count(ip) == 1,
            old(self).last_reset_of() + old(self).timeout_of() > now ==> final(self).count(ip) == old(self).count(ip) + 1,
    {
        self.check_reset(now);
        self.add_request(ip);
    }
}

impl Default for RateLimiter {
    /// The same as [`RateLimiter::new`].
    fn default() -> (r: RateLimiter)
        ensures
            r.limit_of() == 10,
            r.timeout_of() == 60,
            r.last_reset_of() == 0,
            forall|ip: IpAddr| r.count(ip) == 0,
    {
        RateLimiter::new()
    }
}

} // verus!
