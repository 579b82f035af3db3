//! Support for the HTTP HEAD method.
use vstd::prelude::*;

use crate::header::Header;
use crate::http::method::Method;
use crate::middleware::{MiddleResult, Middleware};
use crate::request::Request;
use crate::response::{has_header, has_header_spec, Response, ResponseBody};
use crate::text::{decimal, u64_to_string};

verus! {

/// Middleware to add support for the HTTP HEAD method.
///
/// It changes the method to GET and adds a marker header (`afire::head`).
/// Once the response is made by the route, the marker is looked for: if it is
/// there, the body is dropped and a `Content-Length` header is added, if none
/// is present. A static body's length is known; a streamed body's length is
/// what reading the stream to its end gives, if that is enabled.
pub struct Head {
    /// Whether to add the Content-Length header to streaming responses.
    streaming: bool,
}

/// The name of the marker header.
pub open spec fn head_marker() -> Seq<char> {
    "afire::head"@
}

/// The length that a response to a HEAD request reports: none if it already
/// has a `Content-Length` header; else the length of a static body, or of a
/// streamed one as counted (when counting is enabled).
pub open spec fn head_length(
    streaming: bool,
    res: Response,
    counted: Option<usize>,
) -> Option<usize> {
    if has_header_spec(res.headers@, "Content-Length"@) {
        None
    } else {
        match res.data {
            ResponseBody::Static(d) => Some(d@.len() as usize),
            ResponseBody::Stream => if streaming {
                counted
            } else {
                None
            },
            ResponseBody::Empty => None,
        }
    }
}

impl Head {
    /// Whether streamed bodies are counted.
    pub closed spec fn counts_streams(&self) -> bool {
        self.streaming
    }

    /// Create a new instance of the middleware; it counts streamed bodies.
    pub fn new() -> (r: Head)
        ensures
            r.counts_streams(),
    {
        Head { streaming: true }
    }

    /// Set whether to add the Content-Length header to streaming responses.
    pub fn streaming(self, streaming: bool) -> (r: Head)
        ensures
            r.counts_streams() == streaming,
    {
        Head { streaming }
    }

    /// The work after the route, where `counted` is what reading a streamed
    /// body to its end gave (none on a read error).
    pub fn post_counted(&self, req: &Request, res: &mut Response, counted: Option<usize>) -> (r: MiddleResult)
        ensures
            r is Continue,
            !has_header_spec(req.headers@, head_marker()) ==> *final(res) == *old(res),
            has_header_spec(req.headers@, head_marker()) ==> {
                &&& final(res).data is Empty
                &&& final(res).status == old(res).status
                &&& final(res).reason == old(res).reason
                &&& final(res).flag == old(res).flag
                &&& match head_length(self.counts_streams(), *old(res), counted) {
                    Some(n) => final(res).headers@.len() == old(res).headers@.len() + 1
                        && final(res).headers@.take(old(res).headers@.len() as int) == old(res).headers@
                        && final(res).headers@.last().name@ == "Content-Length"@
                        && final(res).headers@.last().value@ == decimal(n as nat),
                    None => final(res).headers == old(res).headers,
                }
            },
    {
        if !has_header(req.headers.as_slice(), "afire::head") {
            return MiddleResult::Continue;
        }
        let len: Option<usize> = if has_header(res.headers.as_slice(), "Content-Length") {
            None
        } else {
            match &res.data {
                ResponseBody::Static(d) => Some(d.len()),
                ResponseBody::Stream => if self.streaming {
                    counted
                } else {
                    None
                },
                ResponseBody::Empty => None,
            }
        };
        match len {
            Some(i) => {
                let ghost before = res.headers@;
                res.headers.push(Header::new("Content-Length", u64_to_string(i as u64).as_str()));
                assert(res.headers@.take(before.len() as int) =~= before);
            },
            None => {},
        }
        res.data = ResponseBody::Empty;
        MiddleResult::Continue
    }
}

impl Middleware for Head {
    /// Turns a HEAD request into a GET request with the marker header.
    fn pre(&mut self, req: &mut Request) -> (r: MiddleResult)
        ensures
            r is Continue,
            old(req).method != Method::HEAD ==> *final(req) == *old(req),
            old(req).method == Method::HEAD ==> {
                &&& final(req).method == Method::GET
                &&& final(req).headers@.len() == old(req).headers@.len() + 1
                &&& final(req).headers@.take(old(req).headers@.len() as int) == old(req).headers@
                &&& final(req).headers@.last().name@ == head_marker()
                &&& final(req).headers@.last().value@ == "true"@
                &&& final(req).path == old(req).path
                &&& final(req).body == old(req).body
            },
    {
        if req.method != Method::HEAD {
            return MiddleResult::Continue;
        }
        req.method = Method::GET;
        let ghost before = req.headers@;
        req.headers.push(Header::new("afire::head", "true"));
        assert(req.headers@.take(before.len() as int) =~= before);
        MiddleResult::Continue
    }

    /// The work after the route; a streamed body's length is not known here.
    fn post(&mut self, req: &Request, res: &mut Response) -> (r: MiddleResult)
        ensures
            r is Continue,
            !has_header_spec(req.headers@, head_marker()) ==> *final(res) == *old(res),
            has_header_spec(req.headers@, head_marker()) ==> {
                &&& final(res).data is Empty
                &&& final(res).status == old(res).status
                &&& final(res).reason == old(res).reason
                &&& final(res).flag == old(res).flag
                &&& match head_length(old(self).counts_streams(), *old(res), None) {
                    Some(n) => final(res).headers@.len() == old(res).headers@.len() + 1
                        && final(res).headers@.take(old(res).headers@.len() as int) == old(res).headers@
                        && final(res).headers@.last().name@ == "Content-Length"@
                        && final(res).headers@.last().value@ == decimal(n as nat),
                    None => final(res).headers == old(res).headers,
                }
            },
    {
        self.post_counted(req, res, None)
    }
}

impl Default for Head {
    /// The same as [`Head::new`].
    fn default() -> (r: Head)
        ensures
            r.counts_streams(),
    {
        Head::new()
    }
}

} // verus!
