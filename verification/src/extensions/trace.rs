//! Support for the HTTP TRACE method.
use vstd::prelude::*;
use vstd::string::StringExecFns;
use vstd::utf8::encode_utf8;

use crate::extensions::content_type::Content;
use crate::header::{headers_text, headers_to_string, Header};
use crate::http::method::{method_name, Method};
use crate::request::Request;
use crate::response::Response;
use crate::text::{push_str, str_eq, str_views};

verus! {

/// Adds support for the HTTP TRACE method.
///
/// It echoes the request (status line and headers) back to the client as the response body.
/// The `Cookie` header is excluded by default because it could hold sensitive information.
pub struct Trace {
    exclude_headers: Vec<String>,
}

/// The headers of `hs` whose names are not in `ex`, in order.
pub open spec fn kept_headers(hs: Seq<Header>, ex: Seq<Seq<char>>) -> Seq<Header>
    decreases hs.len(),
{
    if hs.len() == 0 {
        Seq::empty()
    } else if ex.contains(hs.last().name@) {
        kept_headers(hs.drop_last(), ex)
    } else {
        kept_headers(hs.drop_last(), ex).push(hs.last())
    }
}

/// The body of the answer to a TRACE request: its method, path and version,
/// then the headers kept, each as `name: value` on a line.
pub open spec fn trace_text(req: Request, ex: Seq<Seq<char>>) -> Seq<char> {
    method_name(req.method) + " "@ + req.path@ + " "@ + req.version@ + "\r\n"@ + headers_text(
        kept_headers(req.headers@, ex),
    ) + "\r\n\r\n"@
}

fn contains_str(v: &Vec<String>, s: &str) -> (r: bool)
    ensures
        r == str_views(v@).contains(s@),
{
    let ghost names = str_views(v@);
    let mut i: usize = 0;
    while i < v.len()
        invariant
            i <= v@.len(),
            names == str_views(v@),
            forall|k: int| 0 <= k < i ==> names[k] != s@,
        decreases v.len() - i,
    {
        if str_eq(v[i].as_str(), s) {
            assert(names[i as int] == s@);
            return true;
        }
        i = i + 1;
    }
    false
}

impl Trace {
    /// The names of the headers left out of the echo.
    pub closed spec fn excluded(&self) -> Seq<Seq<char>> {
        str_views(self.exclude_headers@)
    }

    /// Create a new instance of the middleware; it excludes the `Cookie` header.
    pub fn new() -> (r: Trace)
        ensures
            r.excluded() == seq!["Cookie"@],
    {
        let mut v: Vec<String> = Vec::new();
        v.push(String::from_str("Cookie"));
        let r = Trace { exclude_headers: v };
        assert(r.excluded() =~= seq!["Cookie"@]);
        r
    }

    /// Adds a header to the list of headers to exclude from the response.
    pub fn exclude(self, header: &str) -> (r: Trace)
        ensures
            r.excluded() == self.excluded().push(header@),
    {
        let mut v = self.exclude_headers;
        v.push(String::from_str(header));
        let r = Trace { exclude_headers: v };
        assert(r.excluded() =~= self.excluded().push(header@));
        r
    }

    /// Adds a list of headers to the list of headers to exclude from the response.
    pub fn exclude_all(self, headers: &[String]) -> (r: Trace)
        ensures
            r.excluded() == self.excluded() + str_views(headers@),
    {
        let ghost start = self.excluded();
        let mut v = self.exclude_headers;
        let mut i: usize = 0;
        while i < headers.len()
            invariant
                i <= headers@.len(),
                str_views(v@) == start + str_views(headers@.take(i as int)),
            decreases headers.len() - i,
        {
            let ghost before = v@;
            v.push(headers[i].clone());
            assert(headers@.take(i + 1) =~= headers@.take(i as int).push(headers@[i as int]));
            assert(str_views(v@) =~= str_views(before).push(headers@[i as int]@));
            assert(str_views(headers@.take(i + 1)) =~= str_views(headers@.take(i as int)).push(headers@[i as int]@));
            assert(str_views(v@) =~= start + str_views(headers@.take(i + 1)));
            i = i + 1;
        }
        assert(headers@.take(headers@.len() as int) == headers@);
        Trace { exclude_headers: v }
    }

    /// Removes a header from the list of headers to exclude from the response.
    pub fn include_header(self, header: &str) -> (r: Trace)
        ensures
            r.excluded() == self.excluded().filter(|x: Seq<char>| x != header@),
    {
        let ghost ex = self.excluded();
        let mut v: Vec<String> = Vec::new();
        let mut i: usize = 0;
        while i < self.exclude_headers.len()
            invariant
                i <= self.exclude_headers@.len(),
                ex == self.excluded(),
                str_views(v@) == ex.take(i as int).filter(|x: Seq<char>| x != header@),
            decreases self.exclude_headers.len() - i,
        {
            let ghost before = v@;
            assert(ex.take(i + 1).drop_last() == ex.take(i as int));
            assert(ex.take(i + 1).last() == self.exclude_headers@[i as int]@);
            proof {
                reveal(Seq::filter);
            }
            if !str_eq(self.exclude_headers[i].as_str(), header) {
                v.push(self.exclude_headers[i].clone());
                assert(str_views(v@) =~= str_views(before).push(self.exclude_headers@[i as int]@));
            }
            i = i + 1;
        }
        assert(ex.take(ex.len() as int) == ex);
        let r = Trace { exclude_headers: v };
        r
    }

    /// The headers of a request that the echo keeps.
    pub fn kept(&self, req: &Request) -> (r: Vec<Header>)
        ensures
            r@ == kept_headers(req.headers@, self.excluded()),
    {
        let mut out: Vec<Header> = Vec::new();
        let mut i: usize = 0;
        while i < req.headers.len()
            invariant
                i <= req.headers@.len(),
                out@ == kept_headers(req.headers@.take(i as int), self.excluded()),
            decreases req.headers.len() - i,
        {
            assert(req.headers@.take(i + 1).drop_last() == req.headers@.take(i as int));
            assert(req.headers@.take(i + 1).last() == req.headers@[i as int]);
            if !contains_str(&self.exclude_headers, req.headers[i].name.as_str()) {
                out.push(req.headers[i].duplicate());
            }
            i = i + 1;
        }
        assert(req.headers@.take(req.headers@.len() as int) == req.headers@);
        out
    }

    /// The answer to a TRACE request: its status line and kept headers as
    /// the body, with the `message/http` content type. At least one header
    /// must be kept.
    pub fn respond(&self, req: &Request) -> (r: Response)
        requires
            kept_headers(req.headers@, self.excluded()).len() > 0,
        ensures
            r.data matches crate::response::ResponseBody::Static(d) && d@ == encode_utf8(
                trace_text(*req, self.excluded()),
            ),
            r.status == crate::http::status::Status::OK,
            r.headers@.len() == 1,
            r.headers@[0].name@ == "Content-Type"@,
            r.headers@[0].value@ == "message/http"@,
    {
        let kept = self.kept(req);
        let mut out = String::from_str(req.method.as_str());
        push_str(&mut out, " ");
        push_str(&mut out, req.path.as_str());
        push_str(&mut out, " ");
        push_str(&mut out, req.version.as_str());
        push_str(&mut out, "\r\n");
        let hs = headers_to_string(kept.as_slice());
        push_str(&mut out, hs.as_str());
        push_str(&mut out, "\r\n\r\n");
        assert(out@ =~= trace_text(*req, self.excluded()));
        let r = Response::new().text(out.as_str()).content(Content::Custom(String::from_str("message/http")));
        assert(r.headers@.last() == r.headers@[0]);
        r
    }
}

impl Default for Trace {
    /// The same as [`Trace::new`].
    fn default() -> (r: Trace)
        ensures
            r.excluded() == seq!["Cookie"@],
    {
        Trace::new()
    }
}

} // verus!
