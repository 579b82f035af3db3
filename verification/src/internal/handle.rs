//! The decisions of the connection handler: routing a request, choosing the
//! response to an error, and whether to keep a connection open.
use vstd::prelude::*;
use vstd::string::StringExecFns;
use vstd::utf8::encode_utf8;

use crate::context::{has_flag, ContextFlag, ContextFlags};
use crate::error::{Error, HandleError, ParseError, StreamError};
use crate::extensions::content_type::Content;
use crate::http::method::{method_name, Method};
use crate::http::status::Status;
use crate::internal::router::{route_match, MatchOutcome, Path, PathParameters};
use crate::middleware::MiddleResult;
use crate::request::Request;
use crate::response::{Response, ResponseBody, ResponseFlag};
use crate::text::push_str;

verus! {

/// A route: the method it answers (or any) and its path.
pub struct RoutePattern {
    /// The method the route answers; `ANY` answers every method.
    pub method: Method,
    /// The path of the route.
    pub path: Path,
}

/// The route answers requests with `method`.
pub open spec fn method_fits(route: Method, method: Method) -> bool {
    route == Method::ANY || route == method
}

/// None of the routes panics when matched against `path`.
pub open spec fn routes_matchable(routes: Seq<RoutePattern>, path: Seq<char>) -> bool {
    forall|i: int| 0 <= i < routes.len() ==> !(#[trigger] route_match(routes[i].path@.0, path) is Panics)
}

/// The route at index `i` takes the request.
pub open spec fn route_takes(r: RoutePattern, method: Method, path: Seq<char>) -> bool {
    method_fits(r.method, method) && route_match(r.path@.0, path) is Matched
}

/// The last route that takes the request, looking from index `n - 1` down.
pub open spec fn last_route(routes: Seq<RoutePattern>, method: Method, path: Seq<char>, n: int) -> Option<int>
    decreases n,
{
    if n <= 0 {
        None
    } else if route_takes(routes[n - 1], method, path) {
        Some(n - 1)
    } else {
        last_route(routes, method, path, n - 1)
    }
}

/// Find the route for a request: routes are tried from the last added to
/// the first, and the first whose method fits and whose path matches takes
/// it. Gives its index and the path parameters.
pub fn find_route(routes: &[RoutePattern], req: &Request) -> (r: Option<(usize, PathParameters)>)
    requires
        routes_matchable(routes@, req.path@),
    ensures
        match last_route(routes@, req.method, req.path@, routes@.len() as int) {
            None => r is None,
            Some(i) => r matches Some((j, p)) && j == i && (route_match(routes@[i].path@.0, req.path@) matches MatchOutcome::Matched(rs)
                && p@ == (rs, routes@[i].path@.1)),
        },
{
    let mut n = routes.len();
    while n > 0
        invariant
            n <= routes@.len(),
            routes_matchable(routes@, req.path@),
            last_route(routes@, req.method, req.path@, routes@.len() as int) == last_route(routes@, req.method, req.path@, n as int),
        decreases n,
    {
        let route = &routes[n - 1];
        if route.method == Method::ANY || route.method == req.method {
            assert(!(route_match(routes@[n - 1].path@.0, req.path@) is Panics));
            match route.path.matches(req.path.as_str()) {
                Some(params) => {
                    return Some((n - 1, params));
                },
                None => {},
            }
        }
        n = n - 1;
    }
    None
}

/// What the connection handler does after one middleware has seen the request.
#[derive(Debug)]
pub enum PreAction {
    /// Go on to the next middleware.
    Next,
    /// Stop the chain and go on to the routes.
    Route,
    /// Stop the chain and send this response.
    Send(Response),
}

/// The rule of the middleware chain before the routes: `Continue` goes on
/// to the next middleware, `Abort` stops the chain, `Send` stops it and sends
/// the response.
pub fn pre_step(step: MiddleResult) -> (r: PreAction)
    ensures
        step is Continue ==> r is Next,
        step is Abort ==> r is Route,
        step matches MiddleResult::Send(x) ==> r == PreAction::Send(x),
{
    match step {
        MiddleResult::Continue => PreAction::Next,
        MiddleResult::Abort => PreAction::Route,
        MiddleResult::Send(x) => PreAction::Send(x),
    }
}

/// The rule of the middleware chain after the routes, on the response so
/// far: `Continue` keeps it and goes on, `Abort` keeps it and stops the
/// chain, `Send` puts its response in place and stops the chain. Gives the
/// response and whether the chain stops.
pub fn post_step(res: Result<Response, Error>, step: MiddleResult) -> (r: (Result<Response, Error>, bool))
    ensures
        step is Continue ==> r == (res, false),
        step is Abort ==> r == (res, true),
        step matches MiddleResult::Send(x) ==> r.0 == Ok::<Response, Error>(x) && r.1,
{
    match step {
        MiddleResult::Continue => (res, false),
        MiddleResult::Abort => (res, true),
        MiddleResult::Send(x) => (Ok(x), true),
    }
}

/// The error that reports that no route was found for a request.
pub fn not_found(req: &Request) -> (r: Error)
    ensures
        r matches Error::Handle(HandleError::NotFound(m, p)) && m == req.method && p@ == req.path@,
{
    Error::Handle(HandleError::NotFound(req.method, req.path.clone()))
}

/// What to do once a route's handler has returned.
#[derive(Debug, Clone, Copy, PartialEq, Eq, Structural)]
pub enum AfterHandler {
    /// The handler failed: answer with its error.
    AnswerError,
    /// The response was sent: nothing is left to do.
    Done,
    /// The handler promised to send the response later: wait for it.
    Wait,
    /// No response was sent: answer that nothing was implemented.
    NotImplemented,
}

/// What to do once a route's handler has returned, from whether it failed
/// and the flags of its context.
pub fn after_handler(failed: bool, flags: ContextFlags) -> (r: AfterHandler)
    ensures
        failed ==> r == AfterHandler::AnswerError,
        !failed && has_flag(flags.0, ContextFlag::ResponseSent) ==> r == AfterHandler::Done,
        !failed && !has_flag(flags.0, ContextFlag::ResponseSent) && has_flag(flags.0, ContextFlag::GuaranteedSend)
            ==> r == AfterHandler::Wait,
        !failed && !has_flag(flags.0, ContextFlag::ResponseSent) && !has_flag(flags.0, ContextFlag::GuaranteedSend)
            ==> r == AfterHandler::NotImplemented,
{
    if failed {
        AfterHandler::AnswerError
    } else if flags.get(ContextFlag::ResponseSent) {
        AfterHandler::Done
    } else if flags.get(ContextFlag::GuaranteedSend) {
        AfterHandler::Wait
    } else {
        AfterHandler::NotImplemented
    }
}

/// The response sent when a handler returned without sending one: status
/// 501 and the text `No response was sent`.
pub fn not_implemented_response() -> (r: Response)
    ensures
        r.status == Status::NotImplemented,
        r.data matches ResponseBody::Static(d) && d@ == encode_utf8("No response was sent"@),
        r.headers@.len() == 0,
        r.reason is None,
        r.flag == ResponseFlag::Normal,
{
    Response::new().status(Status::NotImplemented).text("No response was sent")
}

/// What to do with a connection after a response.
#[derive(Debug, Clone, Copy, PartialEq, Eq, Structural)]
pub enum CloseAction {
    /// The connection is finished; it is dropped as it is.
    End,
    /// The connection is shut down.
    Shutdown,
    /// The connection is kept for the next request.
    KeepOpen,
}

/// Whether to close a connection after a response: a finished connection
/// ends; one that is not kept alive, whose response asks for it to close, or
/// on a server without keep-alive is shut down; any other stays open.
pub fn close_action(flag: ResponseFlag, keep_alive: bool, server_keep_alive: bool) -> (r: CloseAction)
    ensures
        flag == ResponseFlag::End ==> r == CloseAction::End,
        flag != ResponseFlag::End && (!keep_alive || flag == ResponseFlag::Close || !server_keep_alive)
            ==> r == CloseAction::Shutdown,
        flag != ResponseFlag::End && keep_alive && flag != ResponseFlag::Close && server_keep_alive
            ==> r == CloseAction::KeepOpen,
{
    if flag == ResponseFlag::End {
        return CloseAction::End;
    }
    if !keep_alive || flag == ResponseFlag::Close || !server_keep_alive {
        return CloseAction::Shutdown;
    }
    CloseAction::KeepOpen
}

/// The error to answer with when writing a response: that of the request if
/// it failed to parse, else that of the response.
pub fn answered_error<'a>(request: &'a Result<Request, Error>, response: &'a Error) -> (r: &'a Error)
    ensures
        match request {
            Err(e) => r == e,
            Ok(_) => r == response,
        },
{
    match request {
        Err(e) => e,
        Ok(_) => response,
    }
}

/// The errors a response can be made for.
pub open spec fn answerable(err: Error) -> bool {
    match err {
        Error::Stream(_) => true,
        Error::Parse(_) => true,
        Error::Handle(HandleError::NotFound(_, _)) => true,
        Error::Io(_) => true,
        _ => false,
    }
}

/// The status and text of the response to an error, and whether it is
/// marked as plain text.
pub open spec fn error_response_spec(err: Error) -> (Status, Seq<char>, bool) {
    match err {
        Error::Stream(StreamError::UnexpectedEof) => (Status::BadRequest, "Unexpected EOF"@, false),
        Error::Parse(ParseError::InvalidHttpVersion) => (
            Status::HTTPVersionNotSupported,
            "HTTP version not supported. Only HTTP/1.0 and HTTP/1.1 are supported."@,
            false,
        ),
        Error::Parse(e) => (Status::BadRequest, parse_error_text(e), false),
        Error::Handle(HandleError::NotFound(m, p)) => (Status::NotFound, "Cannot "@ + method_name(m) + " "@ + p@, true),
        Error::Io(e) => (Status::InternalServerError, e.message@, false),
        _ => (Status::InternalServerError, Seq::empty(), false),
    }
}

/// The short text for a request that failed to parse.
pub open spec fn parse_error_text(e: ParseError) -> Seq<char> {
    match e {
        ParseError::NoSeparator => "No separator"@,
        ParseError::NoMethod => "No method"@,
        ParseError::NoPath => "No path"@,
        ParseError::NoVersion => "No HTTP version"@,
        ParseError::NoRequestLine => "No request line"@,
        ParseError::InvalidQuery => "Invalid query"@,
        ParseError::InvalidHeader => "Invalid header"@,
        ParseError::InvalidMethod => "Invalid method"@,
        ParseError::NoHostHeader => "No Host header"@,
        ParseError::InvalidHttpVersion => "HTTP version not supported. Only HTTP/1.0 and HTTP/1.1 are supported."@,
    }
}

fn parse_error_str(e: ParseError) -> (r: &'static str)
    ensures
        r@ == parse_error_text(e),
{
    match e {
        ParseError::NoSeparator => "No separator",
        ParseError::NoMethod => "No method",
        ParseError::NoPath => "No path",
        ParseError::NoVersion => "No HTTP version",
        ParseError::NoRequestLine => "No request line",
        ParseError::InvalidQuery => "Invalid query",
        ParseError::InvalidHeader => "Invalid header",
        ParseError::InvalidMethod => "Invalid method",
        ParseError::NoHostHeader => "No Host header",
        ParseError::InvalidHttpVersion => "HTTP version not supported. Only HTTP/1.0 and HTTP/1.1 are supported.",
    }
}

/// Gets the response for an error: a stream, parse, not-found or I/O error.
pub fn error_response(err: &Error) -> (r: Response)
    requires
        answerable(*err),
    ensures
        r.status == error_response_spec(*err).0,
        r.data matches ResponseBody::Static(d) && d@ == encode_utf8(error_response_spec(*err).1),
        r.reason is None,
        r.flag == ResponseFlag::Normal,
        error_response_spec(*err).2 ==> r.headers@.len() == 1 && r.headers@[0].name@ == "Content-Type"@
            && r.headers@[0].value@ == "text/plain"@,
        !error_response_spec(*err).2 ==> r.headers@.len() == 0,
{
    match err {
        Error::Stream(StreamError::UnexpectedEof) => Response::new().status(Status::BadRequest).text("Unexpected EOF"),
        Error::Parse(ParseError::InvalidHttpVersion) => Response::new().status(Status::HTTPVersionNotSupported).text(
            "HTTP version not supported. Only HTTP/1.0 and HTTP/1.1 are supported.",
        ),
        Error::Parse(e) => Response::new().status(Status::BadRequest).text(parse_error_str(*e)),
        Error::Handle(HandleError::NotFound(method, path)) => {
            let mut text = String::from_str("Cannot ");
            push_str(&mut text, method.as_str());
            push_str(&mut text, " ");
            push_str(&mut text, path.as_str());
            let r = Response::new().status(Status::NotFound).text(text.as_str()).content(Content::TXT);
            assert(r.headers@[0] == r.headers@.last());
            r
        },
        Error::Io(e) => Response::new().status(Status::InternalServerError).text(e.message.as_str()),
        _ => {
            assert(false);
            Response::new()
        },
    }
}

} // verus!
