//! Methods for a request (the method type of the first routing API).
use vstd::prelude::*;
use vstd::string::StringExecFns;

use crate::http::method::{method_name, method_of_upper, Method as HttpMethod};
use crate::text::str_to_uppercase;

verus! {

/// Methods for a request
#[derive(Debug, Hash, PartialEq, Eq, Structural, Clone)]
pub enum Method {
    /// GET Method, used for retrieving data
    GET,
    /// POST Method, used for submitting data
    POST,
    /// PUT Method, used for updating data
    PUT,
    /// DELETE Method, used for deleting data
    DELETE,
    /// OPTIONS Method, used for requesting information about the server
    OPTIONS,
    /// HEAD Method, for getting the response from a GET request without the body
    HEAD,
    /// PATCH Method, used for applying a partial update to a resource
    PATCH,
    /// TRACE Method, used for tracing the route of a request
    TRACE,
    /// For routes that run on all methods; never the method of a request.
    ANY,
}

/// The method of the current API with the same name.
pub open spec fn as_http(m: Method) -> HttpMethod {
    match m {
        Method::GET => HttpMethod::GET,
        Method::POST => HttpMethod::POST,
        Method::PUT => HttpMethod::PUT,
        Method::DELETE => HttpMethod::DELETE,
        Method::OPTIONS => HttpMethod::OPTIONS,
        Method::HEAD => HttpMethod::HEAD,
        Method::PATCH => HttpMethod::PATCH,
        Method::TRACE => HttpMethod::TRACE,
        Method::ANY => HttpMethod::ANY,
    }
}

pub open spec fn from_http(m: HttpMethod) -> Method {
    match m {
        HttpMethod::GET => Method::GET,
        HttpMethod::POST => Method::POST,
        HttpMethod::PUT => Method::PUT,
        HttpMethod::DELETE => Method::DELETE,
        HttpMethod::OPTIONS => Method::OPTIONS,
        HttpMethod::HEAD => Method::HEAD,
        HttpMethod::PATCH => Method::PATCH,
        HttpMethod::TRACE => Method::TRACE,
        HttpMethod::ANY => Method::ANY,
    }
}

impl Method {
    fn of_http(m: HttpMethod) -> (r: Method)
        ensures
            r == from_http(m),
    {
        match m {
            HttpMethod::GET => Method::GET,
            HttpMethod::POST => Method::POST,
            HttpMethod::PUT => Method::PUT,
            HttpMethod::DELETE => Method::DELETE,
            HttpMethod::OPTIONS => Method::OPTIONS,
            HttpMethod::HEAD => Method::HEAD,
            HttpMethod::PATCH => Method::PATCH,
            HttpMethod::TRACE => Method::TRACE,
            HttpMethod::ANY => Method::ANY,
        }
    }

    /// Convert a string to a method, ignoring case.
    /// If the string is not a valid method, an error is returned.
    pub fn from_name(s: &str) -> (r: Result<Method, ()>)
        ensures
            match method_of_upper(str_to_uppercase(s@)) {
                Ok(m) => r == Ok::<Method, ()>(from_http(m)),
                Err(_) => r is Err,
            },
    {
        match HttpMethod::from_name(s) {
            Ok(m) => Ok(Method::of_http(m)),
            Err(_) => Err(()),
        }
    }

    /// Returns the string representation of the method.
    pub fn to_string(&self) -> (r: String)
        ensures
            r@ == method_name(as_http(*self)),
    {
        let m = match self {
            Method::GET => HttpMethod::GET,
            Method::POST => HttpMethod::POST,
            Method::PUT => HttpMethod::PUT,
            Method::DELETE => HttpMethod::DELETE,
            Method::OPTIONS => HttpMethod::OPTIONS,
            Method::HEAD => HttpMethod::HEAD,
            Method::PATCH => HttpMethod::PATCH,
            Method::TRACE => HttpMethod::TRACE,
            Method::ANY => HttpMethod::ANY,
        };
        String::from_str(m.as_str())
    }
}

impl std::str::FromStr for Method {
    type Err = ();

    fn from_str(s: &str) -> (r: Result<Self, Self::Err>)
        ensures
            match method_of_upper(str_to_uppercase(s@)) {
                Ok(m) => r == Ok::<Method, ()>(from_http(m)),
                Err(_) => r is Err,
            },
    {
        Method::from_name(s)
    }
}

} // verus!
