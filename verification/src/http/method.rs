//! HTTP request methods.
use vstd::prelude::*;
use vstd::string::StringExecFns;

use crate::text::{str_eq, str_to_uppercase, to_uppercase};

verus! {

/// HTTP Methods.
/// Also contains a special method (ANY) for routes that run on all methods, which will never be the method of a request.
/// From <https://developer.mozilla.org/en-US/docs/Web/HTTP/Methods>
#[derive(Debug, Hash, PartialEq, Eq, Structural, Clone, Copy)]
pub enum Method {
    /// HTTP GET Method, used for retrieving data.
    GET,
    /// HTTP POST Method, used for submitting data.
    POST,
    /// HTTP PUT Method, used for updating data.
    PUT,
    /// HTTP DELETE Method, used for deleting data.
    DELETE,
    /// HTTP OPTIONS Method, used for requesting information about the server.
    OPTIONS,
    /// HTTP HEAD Method, for getting the response from a GET request without the body.
    HEAD,
    /// HTTP PATCH Method, used for applying a partial update to a resource.
    PATCH,
    /// HTTP TRACE Method, used for tracing the route of a request.
    TRACE,
    /// For routes that run on all methods; never the method of a request.
    ANY,
}

/// The text of a method, as `Display` writes it.
pub open spec fn method_name(m: Method) -> Seq<char> {
    match m {
        Method::GET => "GET"@,
        Method::POST => "POST"@,
        Method::PUT => "PUT"@,
        Method::DELETE => "DELETE"@,
        Method::OPTIONS => "OPTIONS"@,
        Method::HEAD => "HEAD"@,
        Method::PATCH => "PATCH"@,
        Method::TRACE => "TRACE"@,
        Method::ANY => "ANY"@,
    }
}

/// The method whose upper-case name is exactly `s`; `ANY` is never parsed.
pub open spec fn method_of_upper(s: Seq<char>) -> Result<Method, ()> {
    if s == "GET"@ {
        Ok(Method::GET)
    } else if s == "POST"@ {
        Ok(Method::POST)
    } else if s == "PUT"@ {
        Ok(Method::PUT)
    } else if s == "DELETE"@ {
        Ok(Method::DELETE)
    } else if s == "OPTIONS"@ {
        Ok(Method::OPTIONS)
    } else if s == "HEAD"@ {
        Ok(Method::HEAD)
    } else if s == "PATCH"@ {
        Ok(Method::PATCH)
    } else if s == "TRACE"@ {
        Ok(Method::TRACE)
    } else {
        Err(())
    }
}

impl Method {
    /// Maps an already upper-cased method name to a method.
    pub fn from_upper(s: &str) -> (r: Result<Method, ()>)
        ensures
            r == method_of_upper(s@),
    {
        if str_eq(s, "GET") {
            Ok(Method::GET)
        } else if str_eq(s, "POST") {
            Ok(Method::POST)
        } else if str_eq(s, "PUT") {
            Ok(Method::PUT)
        } else if str_eq(s, "DELETE") {
            Ok(Method::DELETE)
        } else if str_eq(s, "OPTIONS") {
            Ok(Method::OPTIONS)
        } else if str_eq(s, "HEAD") {
            Ok(Method::HEAD)
        } else if str_eq(s, "PATCH") {
            Ok(Method::PATCH)
        } else if str_eq(s, "TRACE") {
            Ok(Method::TRACE)
        } else {
            Err(())
        }
    }

    /// Convert a string to a method, ignoring case.
    /// If the string is not a valid method or is ANY, an error is returned.
    pub fn from_name(s: &str) -> (r: Result<Method, ()>)
        ensures
            r == method_of_upper(str_to_uppercase(s@)),
    {
        let upper = to_uppercase(s);
        Method::from_upper(upper.as_str())
    }

    /// Returns the string representation of the method.
    pub fn as_str(&self) -> (r: &'static str)
        ensures
            r@ == method_name(*self),
    {
        match self {
            Method::GET => "GET",
            Method::POST => "POST",
            Method::PUT => "PUT",
            Method::DELETE => "DELETE",
            Method::OPTIONS => "OPTIONS",
            Method::HEAD => "HEAD",
            Method::PATCH => "PATCH",
            Method::TRACE => "TRACE",
            Method::ANY => "ANY",
        }
    }

    /// Returns the string representation of the method (what `Display` writes).
    pub fn to_string(&self) -> (r: String)
        ensures
            r@ == method_name(*self),
    {
        String::from_str(self.as_str())
    }
}

impl std::str::FromStr for Method {
    type Err = ();

    fn from_str(s: &str) -> (r: Result<Self, Self::Err>)
        ensures
            r == method_of_upper(str_to_uppercase(s@)),
    {
        Method::from_name(s)
    }
}

/// Parsing the name of a method gives the method back, for every method
/// but `ANY`, which is never parsed.
pub proof fn lemma_parse_name(m: Method)
    ensures
        m != Method::ANY ==> method_of_upper(method_name(m)) == Ok::<Method, ()>(m),
        method_of_upper(method_name(Method::ANY)) is Err,
{
    reveal_strlit("GET");
    assert("GET"@.len() == 3 && "GET"@[0] == 'G');
    reveal_strlit("POST");
    assert("POST"@.len() == 4 && "POST"@[0] == 'P');
    reveal_strlit("PUT");
    assert("PUT"@.len() == 3 && "PUT"@[0] == 'P');
    reveal_strlit("DELETE");
    assert("DELETE"@.len() == 6 && "DELETE"@[0] == 'D');
    reveal_strlit("OPTIONS");
    assert("OPTIONS"@.len() == 7 && "OPTIONS"@[0] == 'O');
    reveal_strlit("HEAD");
    assert("HEAD"@.len() == 4 && "HEAD"@[0] == 'H');
    reveal_strlit("PATCH");
    assert("PATCH"@.len() == 5 && "PATCH"@[0] == 'P');
    reveal_strlit("TRACE");
    assert("TRACE"@.len() == 5 && "TRACE"@[0] == 'T');
    reveal_strlit("ANY");
    assert("ANY"@.len() == 3 && "ANY"@[0] == 'A');
}

/// A method parsed from a name prints as that name.
pub proof fn lemma_name_of_parsed(s: Seq<char>)
    ensures
        method_of_upper(s) matches Ok(m) ==> method_name(m) == s,
{
}

} // verus!
