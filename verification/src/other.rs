//! Request, response and method types of the first routing API.
use vstd::prelude::*;
use vstd::string::StringExecFns;

use crate::common::{cmp_vec, seq_eq_spec};
use crate::header::Header;
use crate::http::method::method_name;
use crate::method::{as_http, from_http, Method as PlainMethod};

verus! {

/// Methods for a request
#[derive(Debug, Clone)]
pub enum Method {
    GET,
    POST,
    PUT,
    DELETE,
    OPTIONS,
    HEAD,
    PATCH,
    TRACE,
    /// Custom request
    CUSTOM(String),
    /// For routes that run on all methods
    ///
    /// Will not be use in a request
    ANY,
}

/// Which variant a method is (methods compare by variant only, so two
/// `CUSTOM` methods are equal whatever their names).
pub open spec fn variant(m: Method) -> int {
    match m {
        Method::GET => 0,
        Method::POST => 1,
        Method::PUT => 2,
        Method::DELETE => 3,
        Method::OPTIONS => 4,
        Method::HEAD => 5,
        Method::PATCH => 6,
        Method::TRACE => 7,
        Method::CUSTOM(_) => 8,
        Method::ANY => 9,
    }
}

impl Method {
    fn variant_index(&self) -> (r: u8)
        ensures
            r as int == variant(*self),
    {
        match self {
            Method::GET => 0,
            Method::POST => 1,
            Method::PUT => 2,
            Method::DELETE => 3,
            Method::OPTIONS => 4,
            Method::HEAD => 5,
            Method::PATCH => 6,
            Method::TRACE => 7,
            Method::CUSTOM(_) => 8,
            Method::ANY => 9,
        }
    }
}

impl PartialEq for Method {
    /// Allow comparing Method Enums
    fn eq(&self, other: &Self) -> (r: bool) {
        self.variant_index() == other.variant_index()
    }
}

impl vstd::std_specs::cmp::PartialEqSpecImpl for Method {
    open spec fn obeys_eq_spec() -> bool {
        true
    }

    open spec fn eq_spec(&self, other: &Self) -> bool {
        variant(*self) == variant(*other)
    }
}

/// Http Request
#[derive(Debug, Clone)]
pub struct Request {
    pub method: Method,
    pub path: String,
    pub headers: Vec<Header>,
    pub body: Vec<u8>,
}

/// Http Response
#[derive(Debug, Clone)]
pub struct Response {
    pub status: u16,
    pub data: String,
    pub headers: Vec<Header>,
}

impl Response {
    /// Quick and easy way to create a response.
    pub fn new(status: u16, data: &str, headers: Vec<Header>) -> (r: Response)
        ensures
            r.status == status,
            r.data@ == data@,
            r.headers == headers,
    {
        Response { status, data: String::from_str(data), headers: headers }
    }
}

/// Requests compare equal when their methods are the same variant, their
/// paths are the same text, and their headers and bodies are equal.
pub open spec fn request_eq(a: Request, b: Request) -> bool {
    &&& variant(a.method) == variant(b.method)
    &&& a.path@ == b.path@
    &&& seq_eq_spec(a.headers@, b.headers@)
    &&& a.body@ == b.body@
}

impl Request {
    /// Quick and easy way to create a request.
    pub fn new(method: Method, path: &str, headers: Vec<Header>, body: Vec<u8>) -> (r: Request)
        ensures
            r.method == method,
            r.path@ == path@,
            r.headers == headers,
            r.body == body,
    {
        Request { method, path: String::from_str(path), headers, body }
    }

    /// Compares two requests.
    pub fn compare(&self, other: &Request) -> (r: bool)
        ensures
            r == request_eq(*self, *other),
    {
        let same_body = cmp_vec(self.body.as_slice(), other.body.as_slice());
        assert(same_body == (self.body@ == other.body@)) by {
            if same_body {
                assert(self.body@ =~= other.body@);
            }
        }
        self.method == other.method && crate::text::str_eq(self.path.as_str(), other.path.as_str())
            && cmp_vec(self.headers.as_slice(), other.headers.as_slice()) && same_body
    }
}

} // verus!
