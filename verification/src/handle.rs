//! Handling a request from its raw bytes to the bytes of its response.
use vstd::prelude::*;
use vstd::string::StringExecFns;
use vstd::utf8::encode_utf8;

use crate::error::{Error, HandleError, ParseError};
use crate::extensions::content_type::Content;
use crate::header::{headers_text, headers_to_string, Header};
use crate::http::method::{method_name, Method};
use crate::http::status::{code_spec, reason_spec, Status};
use crate::internal::path::{match_path_spec, params_view, parts_view, Path as RoutePath};
use crate::request::Request;
use crate::response::{body_bytes, has_header, has_header_spec, Response, ResponseBody, ResponseFlag};
use crate::text::{bytes_of, decimal, push_decimal, push_str, u64_to_string};

verus! {

/// The errors that [`error_response`] answers.
pub open spec fn answerable(err: Error) -> bool {
    match err {
        Error::Parse(e) => !(e is InvalidMethod || e is InvalidHttpVersion || e is NoHostHeader),
        Error::Handle(HandleError::NotFound(_, _)) => true,
        Error::Io(_) => true,
        _ => false,
    }
}

/// The error answered: the response's, or the request's if the response has none.
pub open spec fn chosen_error(req: Error, res: Error) -> Error {
    if res is NoResponse {
        req
    } else {
        res
    }
}

/// The status and text of the response to an error, and whether it is
/// marked as plain text.
pub open spec fn error_response_spec(err: Error) -> (Status, Seq<char>, bool) {
    match err {
        Error::Parse(e) => (Status::BadRequest, match e {
            ParseError::NoSeparator => "No separator"@,
            ParseError::NoMethod => "No method"@,
            ParseError::NoPath => "No path"@,
            ParseError::NoVersion => "No HTTP version"@,
            ParseError::NoRequestLine => "No request line"@,
            ParseError::InvalidQuery => "Invalid query"@,
            _ => "Invalid header"@,
        }, false),
        Error::Handle(HandleError::NotFound(m, p)) => (Status::NotFound, "Cannot "@ + method_name(m) + " "@ + p@, true),
        Error::Io(e) => (Status::InternalServerError, e.kind@, false),
        _ => (Status::InternalServerError, Seq::empty(), false),
    }
}

/// Gets the response for an error: that of `res`, or of `req` when `res`
/// is no response.
pub fn error_response(req: Error, res: Error) -> (r: Response)
    requires
        answerable(chosen_error(req, res)),
    ensures
        r.status == error_response_spec(chosen_error(req, res)).0,
        r.data matches ResponseBody::Static(d) && d@ == encode_utf8(error_response_spec(chosen_error(req, res)).1),
        r.reason is None,
        r.flag == ResponseFlag::Normal,
        error_response_spec(chosen_error(req, res)).2 ==> r.headers@.len() == 1 && r.headers@[0].name@
            == "Content-Type"@ && r.headers@[0].value@ == "text/plain"@,
        !error_response_spec(chosen_error(req, res)).2 ==> r.headers@.len() == 0,
{
    let err = match res {
        Error::NoResponse => req,
        other => other,
    };
    match err {
        Error::Parse(e) => {
            let text = match e {
                ParseError::NoSeparator => "No separator",
                ParseError::NoMethod => "No method",
                ParseError::NoPath => "No path",
                ParseError::NoVersion => "No HTTP version",
                ParseError::NoRequestLine => "No request line",
                ParseError::InvalidQuery => "Invalid query",
                _ => "Invalid header",
            };
            Response::new().status(Status::BadRequest).text(text)
        },
        Error::Handle(HandleError::NotFound(method, path)) => {
            let mut text = String::from_str("Cannot ");
            push_str(&mut text, method.as_str());
            push_str(&mut text, " ");
            push_str(&mut text, path.as_str());
            let r = Response::new().status(Status::NotFound).text(text.as_str()).content(Content::TXT);
            assert(r.headers@[0] == r.headers@.last());
            r
        },
        Error::Io(e) => Response::new().status(Status::InternalServerError).text(e.kind.as_str()),
        _ => {
            assert(false);
            Response::new()
        },
    }
}

/// A header as a name and a value.
pub open spec fn hview(h: Header) -> (Seq<char>, Seq<char>) {
    (h.name@, h.value@)
}

/// Headers as names and values.
pub open spec fn hviews(hs: Seq<Header>) -> Seq<(Seq<char>, Seq<char>)> {
    hs.map_values(|h: Header| hview(h))
}

/// Some header is named `name`.
pub open spec fn has_name(hs: Seq<(Seq<char>, Seq<char>)>, name: Seq<char>) -> bool {
    exists|i: int| 0 <= i < hs.len() && #[trigger] hs[i].0 == name
}

/// The headers of a response with the default headers whose names it does
/// not have yet, in order.
pub open spec fn with_defaults(hs: Seq<(Seq<char>, Seq<char>)>, defaults: Seq<(Seq<char>, Seq<char>)>) -> Seq<(Seq<char>, Seq<char>)>
    decreases defaults.len(),
{
    if defaults.len() == 0 {
        hs
    } else {
        let acc = with_defaults(hs, defaults.drop_last());
        if has_name(acc, defaults.last().0) {
            acc
        } else {
            acc.push(defaults.last())
        }
    }
}

/// The headers a response is sent with: its own, the defaults it lacks, and
/// a `Content-Length` header with the length of its body if none of these is one.
pub open spec fn sent_headers(res: Response, defaults: Seq<Header>) -> Seq<(Seq<char>, Seq<char>)> {
    let hs = with_defaults(hviews(res.headers@), hviews(defaults));
    if has_name(hs, "Content-Length"@) {
        hs
    } else {
        hs.push(("Content-Length"@, decimal(body_bytes(res.data).len())))
    }
}

/// Header lines, each `name: value` followed by `\r\n`.
pub open spec fn view_lines(hs: Seq<(Seq<char>, Seq<char>)>) -> Seq<char>
    decreases hs.len(),
{
    if hs.len() == 0 {
        Seq::empty()
    } else {
        view_lines(hs.drop_last()) + hs.last().0 + ": "@ + hs.last().1 + "\r\n"@
    }
}

proof fn lemma_view_lines(hs: Seq<Header>)
    ensures
        crate::header::headers_lines(hs) == view_lines(hviews(hs)),
    decreases hs.len(),
{
    if hs.len() > 0 {
        lemma_view_lines(hs.drop_last());
        assert(hviews(hs.drop_last()) =~= hviews(hs).drop_last());
    }
}

/// The reason phrase a response is sent with: its own, or its status's.
pub open spec fn sent_reason(res: Response) -> Seq<char> {
    match res.reason {
        Some(r) => r@,
        None => reason_spec(code_spec(res.status)),
    }
}

/// The bytes a response is sent as: the status line, the header lines, a
/// blank line, and the body held in memory.
pub open spec fn response_bytes(res: Response, defaults: Seq<Header>) -> Seq<u8> {
    let lines = view_lines(sent_headers(res, defaults));
    encode_utf8(
        "HTTP/1.1 "@ + decimal(code_spec(res.status) as nat) + " "@ + sent_reason(res) + "\r\n"@
            + lines.take(lines.len() - 2) + "\r\n\r\n"@,
    ) + body_bytes(res.data)
}

/// A copy of a header list with the defaults it lacks added.
fn add_defaults(headers: &Vec<Header>, defaults: &[Header]) -> (r: Vec<Header>)
    ensures
        hviews(r@) == with_defaults(hviews(headers@), hviews(defaults@)),
{
    let mut out: Vec<Header> = Vec::new();
    let mut i: usize = 0;
    while i < headers.len()
        invariant
            i <= headers@.len(),
            hviews(out@) == hviews(headers@.take(i as int)),
        decreases headers.len() - i,
    {
        let ghost before = out@;
        out.push(headers[i].duplicate());
        assert(headers@.take(i + 1) =~= headers@.take(i as int).push(headers@[i as int]));
        assert(hviews(out@) =~= hviews(before).push(hview(headers@[i as int])));
        assert(hviews(headers@.take(i + 1)) =~= hviews(headers@.take(i as int)).push(hview(headers@[i as int])));
        i = i + 1;
    }
    assert(headers@.take(headers@.len() as int) == headers@);
    let mut k: usize = 0;
    let ghost dv = hviews(defaults@);
    assert(dv.take(0) =~= Seq::<(Seq<char>, Seq<char>)>::empty());
    while k < defaults.len()
        invariant
            k <= defaults@.len(),
            dv == hviews(defaults@),
            hviews(out@) == with_defaults(hviews(headers@), dv.take(k as int)),
        decreases defaults.len() - k,
    {
        assert(dv.take(k + 1).drop_last() == dv.take(k as int));
        assert(dv.take(k + 1).last() == hview(defaults@[k as int]));
        let present = has_header(out.as_slice(), defaults[k].name.as_str());
        proof {
            crate::response::lemma_header_index(out@, defaults@[k as int].name@);
            let acc = hviews(out@);
            if present {
                let j = crate::response::header_index(out@, defaults@[k as int].name@)->0;
                assert(acc[j].0 == defaults@[k as int].name@);
            } else {
                assert forall|j: int| 0 <= j < acc.len() implies acc[j].0 != defaults@[k as int].name@ by {
                    assert(acc[j] == hview(out@[j]));
                }
            }
        }
        if !present {
            let ghost before = out@;
            out.push(defaults[k].duplicate());
            assert(hviews(out@) =~= hviews(before).push(hview(defaults@[k as int])));
        }
        k = k + 1;
    }
    assert(dv.take(dv.len() as int) == dv);
    out
}

/// The bytes of a response, and the response: an error is first made a
/// response. The default headers the response lacks are added, and a
/// `Content-Length` header if it has none.
pub fn response_http(default_headers: &[Header], res: Result<Response, Error>) -> (r: (Vec<u8>, Response))
    requires
        res matches Err(e) ==> answerable(chosen_error(e, Error::NoResponse)),
    ensures
        r.0@ == response_bytes(r.1, default_headers@),
        res matches Ok(x) ==> r.1 == x,
        res matches Err(e) ==> {
            &&& r.1.status == error_response_spec(e).0
            &&& r.1.data matches ResponseBody::Static(d) && d@ == encode_utf8(error_response_spec(e).1)
        },
{
    let res = match res {
        Ok(i) => i,
        Err(e) => error_response(e, Error::NoResponse),
    };
    let mut headers = add_defaults(&res.headers, default_headers);
    let len: usize = match &res.data {
        ResponseBody::Static(d) => d.len(),
        _ => 0,
    };
    let ghost hs0 = hviews(headers@);
    let present = has_header(headers.as_slice(), "Content-Length");
    proof {
        crate::response::lemma_header_index(headers@, "Content-Length"@);
        if present {
            let j = crate::response::header_index(headers@, "Content-Length"@)->0;
            assert(hs0[j].0 == "Content-Length"@);
        } else {
            assert forall|j: int| 0 <= j < hs0.len() implies hs0[j].0 != "Content-Length"@ by {
                assert(hs0[j] == hview(headers@[j]));
            }
        }
    }
    if !present {
        let ghost before = headers@;
        headers.push(Header::new("Content-Length", u64_to_string(len as u64).as_str()));
        assert(hviews(headers@) =~= hviews(before).push(("Content-Length"@, decimal(len as nat))));
    }
    assert(hviews(headers@) == sent_headers(res, default_headers@));
    let mut head = String::from_str("HTTP/1.1 ");
    push_decimal(&mut head, res.status.code() as u64);
    push_str(&mut head, " ");
    match &res.reason {
        Some(r) => push_str(&mut head, r.as_str()),
        None => push_str(&mut head, res.status.reason_phrase()),
    }
    push_str(&mut head, "\r\n");
    let hs = headers_to_string(headers.as_slice());
    push_str(&mut head, hs.as_str());
    push_str(&mut head, "\r\n\r\n");
    proof {
        lemma_view_lines(headers@);
    }
    let mut response = bytes_of(head.as_str());
    match &res.data {
        ResponseBody::Static(d) => {
            let mut i: usize = 0;
            let ghost start = response@;
            while i < d.len()
                invariant
                    i <= d@.len(),
                    response@ == start + d@.take(i as int),
                decreases d.len() - i,
            {
                response.push(d[i]);
                assert(d@.take(i + 1) == d@.take(i as int).push(d@[i as int]));
                i = i + 1;
            }
            assert(d@.take(d@.len() as int) == d@);
        },
        _ => {
            assert(response@ + Seq::<u8>::empty() =~= response@);
        },
    }
    (response, res)
}

/// The last route, looking from index `n - 1` down, whose method fits the
/// request's and whose path matches the request's path.
pub open spec fn last_route<H>(routes: Seq<(Method, RoutePath, H)>, method: Method, path: Seq<char>, n: int) -> Option<int>
    decreases n,
{
    if n <= 0 {
        None
    } else if (routes[n - 1].0 == method || routes[n - 1].0 == Method::ANY) && match_path_spec(
        parts_view(routes[n - 1].1.parts@),
        path,
    ) is Some {
        Some(n - 1)
    } else {
        last_route(routes, method, path, n - 1)
    }
}

/// Answer a request with its route: routes are tried from the last added to
/// the first; the first whose method is the request's (or any) and whose
/// path matches takes it, and its handler is called once, with the request
/// and the path parameters, to make the response. When no route takes the
/// request, no handler runs and the answer is the not-found error.
pub fn handle_request<H: Fn(&Request, &Vec<(String, String)>) -> Response>(
    routes: &[(Method, RoutePath, H)],
    req: &Request,
) -> (r: Result<Response, Error>)
    requires
        forall|i: int, ps: &Vec<(String, String)>|
            0 <= i < routes@.len() ==> #[trigger] call_requires(routes@[i].2, (req, ps)),
    ensures
        match last_route(routes@, req.method, req.path@, routes@.len() as int) {
            None => r matches Err(Error::Handle(HandleError::NotFound(m, p))) && m == req.method && p@ == req.path@,
            Some(i) => r matches Ok(x) && exists|ps: Vec<(String, String)>|
                match_path_spec(parts_view(routes@[i].1.parts@), req.path@) == Some(params_view(ps@))
                    && call_ensures(routes@[i].2, (req, &ps), x),
        },
{
    let mut n = routes.len();
    while n > 0
        invariant
            n <= routes@.len(),
            forall|i: int, ps: &Vec<(String, String)>|
                0 <= i < routes@.len() ==> #[trigger] call_requires(routes@[i].2, (req, ps)),
            last_route(routes@, req.method, req.path@, routes@.len() as int) == last_route(routes@, req.method, req.path@, n as int),
        decreases n,
    {
        let route = &routes[n - 1];
        if route.0 == req.method || route.0 == Method::ANY {
            match route.1.match_path(req.path.clone()) {
                Some(params) => {
                    let res = (route.2)(req, &params);
                    return Ok(res);
                },
                None => {},
            }
        }
        n = n - 1;
    }
    Err(Error::Handle(HandleError::NotFound(req.method, req.path.clone())))
}

} // verus!
