//! Errors that can occur in the process of connecting to clients, parsing HTTP and handling requests.
use vstd::prelude::*;
use vstd::string::StringExecFns;

use crate::http::method::{method_name, Method};
use crate::text::{push_str, str_eq};

verus! {

/// What an I/O error carries: the name of its kind and its message.
#[derive(Debug, Clone)]
pub struct IoError {
    /// Name of the `std::io::ErrorKind` (as its `Debug` form writes it).
    pub kind: String,
    /// The error's message.
    pub message: String,
}

/// A generic error type for afire.
/// Contains variants for [Startup][`StartupError`], [Stream][`StreamError`], [Handle][`HandleError`], [Parse][`ParseError`], IO and Miscellaneous errors.
#[derive(Debug, Clone)]
pub enum Error {
    /// Error while starting the server.
    Startup(StartupError),
    /// Stream error.
    Stream(StreamError),
    /// Error while handling a Request.
    Handle(HandleError),
    /// Error while parsing request HTTP.
    Parse(ParseError),
    /// IO Errors.
    Io(IoError),
    /// Miscellaneous errors.
    Misc(String),
    /// Response does not exist (probably because of an error with the request).
    NoResponse,
}

/// Errors that can occur while starting the server.
#[derive(Debug, Clone)]
pub enum StartupError {
    /// The IP address specified is invalid.
    InvalidIp,
    /// The socket timeout specified is invalid (must be greater than 0).
    InvalidSocketTimeout,
    /// A forbidden header was set as a default header.
    ForbiddenDefaultHeader {
        /// The header in question.
        header: String,
    },
    /// Errors that can occur while parsing a route path.
    Path {
        /// The error that occurred.
        error: PathError,
        /// The route path that caused the error.
        route: String,
    },
}

/// Errors that can occur while parsing a route path.
#[derive(Debug, Clone, Copy, PartialEq, Eq, Structural)]
pub enum PathError {
    /// Parameter, Wildcard and AnyAfter segments cannot be adjacent in route paths as they make matching ambiguous.
    AmbiguousPath,
    /// Parameter segments must be terminated with a closing curly-bracket.
    UnterminatedParameter,
    /// Parameters cannot be nested inside each other or contain '{' or '}'.
    NestedParameter,
}

/// Errors that can arise while handling a request.
#[derive(Debug, Clone)]
pub enum HandleError {
    /// Route matching request was found, but did not send a response.
    NotImplemented,
    /// Route tried to send a response, but one was already sent.
    ResponseAlreadySent,
    /// Route matching request path not found.
    NotFound(Method, String),
}

/// Error that can occur while parsing the HTTP of a request
#[derive(Debug, Clone, Copy, PartialEq, Eq, Structural)]
pub enum ParseError {
    /// No `\r\n\r\n` found in request to separate metadata from body.
    NoSeparator,
    /// No Method found in request HTTP.
    NoMethod,
    /// No Path found in request HTTP.
    NoPath,
    /// No Version found in request HTTP.
    NoVersion,
    /// No Request Line found in HTTP.
    NoRequestLine,
    /// Invalid Method in Request HTTP.
    InvalidMethod,
    /// Invalid Query in Request HTTP.
    InvalidQuery,
    /// Invalid Header in Request HTTP.
    InvalidHeader,
    /// Invalid HTTP Version in Request HTTP.
    InvalidHttpVersion,
    /// The HOST header was not found in the request.
    NoHostHeader,
}

/// Error that can occur while reading or writing to a stream.
#[derive(Debug, Clone, Copy, PartialEq, Eq, Structural)]
pub enum StreamError {
    /// The stream ended unexpectedly.
    UnexpectedEof,
}

impl Error {
    /// Create a new [`Error::Misc`] with the given message, as an `Err`.
    pub fn bail<T>(msg: &str) -> (r: Result<T, Error>)
        ensures
            r matches Err(Error::Misc(m)) && m@ == msg@,
    {
        Err(Error::Misc(String::from_str(msg)))
    }
}

// ---------------------------------------------------------------------------
// Messages (what `Display` writes)
// ---------------------------------------------------------------------------

pub open spec fn path_error_message(e: PathError) -> Seq<char> {
    match e {
        PathError::AmbiguousPath => "Any, AnyAfter, and Parameter segments cannot be adjacent as they make matching ambiguous"@,
        PathError::UnterminatedParameter => "Parameter segments must be terminated with a closing curly-bracket"@,
        PathError::NestedParameter => "Parameters cannot be nested inside each other or contain '{' or '}'"@,
    }
}

pub open spec fn parse_error_message(e: ParseError) -> Seq<char> {
    match e {
        ParseError::NoSeparator => "No `\\r\\n\\r\\n` found in request to separate metadata from body"@,
        ParseError::NoMethod => "No Method found in request HTTP"@,
        ParseError::NoPath => "No Path found in request HTTP"@,
        ParseError::NoVersion => "No Version found in request HTTP"@,
        ParseError::NoRequestLine => "No Request Line found in HTTP"@,
        ParseError::InvalidMethod => "Invalid Method in Request HTTP"@,
        ParseError::InvalidQuery => "Invalid Query in Request HTTP"@,
        ParseError::InvalidHeader => "Invalid Header in Request HTTP"@,
        ParseError::InvalidHttpVersion => "Request HTTP Version is not supported"@,
        ParseError::NoHostHeader => "The Host header was not found in the request"@,
    }
}

pub open spec fn stream_error_message(e: StreamError) -> Seq<char> {
    match e {
        StreamError::UnexpectedEof => "The stream ended unexpectedly"@,
    }
}

pub open spec fn startup_error_message(e: StartupError) -> Seq<char> {
    match e {
        StartupError::Path { error, route } => "Path error "@ + path_error_message(error)
            + " on route `"@ + route@ + "`."@,
        StartupError::InvalidIp => "The IP address specified is invalid"@,
        StartupError::InvalidSocketTimeout => "The socket timeout specified is invalid (must be greater than 0)"@,
        StartupError::ForbiddenDefaultHeader { header } => "The header `"@ + header@
            + "` is forbidden and may not be used as a default header"@,
    }
}

pub open spec fn handle_error_message(e: HandleError) -> Seq<char> {
    match e {
        HandleError::NotImplemented => "Route handler did not send a response"@,
        HandleError::ResponseAlreadySent => "Route handler tried to send a response, but one was already sent"@,
        HandleError::NotFound(method, path) => "No route found at "@ + method_name(method) + " "@
            + path@,
    }
}

pub open spec fn error_message(e: Error) -> Seq<char> {
    match e {
        Error::Handle(e) => handle_error_message(e),
        Error::Startup(e) => startup_error_message(e),
        Error::Stream(e) => stream_error_message(e),
        Error::Parse(e) => parse_error_message(e),
        Error::Io(e) => e.message@,
        Error::Misc(e) => e@,
        Error::NoResponse => "None"@,
    }
}

impl PathError {
    /// The message `Display` writes for this error.
    pub fn message(&self) -> (r: &'static str)
        ensures
            r@ == path_error_message(*self),
    {
        match self {
            PathError::AmbiguousPath => "Any, AnyAfter, and Parameter segments cannot be adjacent as they make matching ambiguous",
            PathError::UnterminatedParameter => "Parameter segments must be terminated with a closing curly-bracket",
            PathError::NestedParameter => "Parameters cannot be nested inside each other or contain '{' or '}'",
        }
    }
}

impl ParseError {
    /// The message `Display` writes for this error.
    pub fn message(&self) -> (r: &'static str)
        ensures
            r@ == parse_error_message(*self),
    {
        match self {
            ParseError::NoSeparator => "No `\\r\\n\\r\\n` found in request to separate metadata from body",
            ParseError::NoMethod => "No Method found in request HTTP",
            ParseError::NoPath => "No Path found in request HTTP",
            ParseError::NoVersion => "No Version found in request HTTP",
            ParseError::NoRequestLine => "No Request Line found in HTTP",
            ParseError::InvalidMethod => "Invalid Method in Request HTTP",
            ParseError::InvalidQuery => "Invalid Query in Request HTTP",
            ParseError::InvalidHeader => "Invalid Header in Request HTTP",
            ParseError::InvalidHttpVersion => "Request HTTP Version is not supported",
            ParseError::NoHostHeader => "The Host header was not found in the request",
        }
    }
}

impl StreamError {
    /// The message `Display` writes for this error.
    pub fn message(&self) -> (r: &'static str)
        ensures
            r@ == stream_error_message(*self),
    {
        match self {
            StreamError::UnexpectedEof => "The stream ended unexpectedly",
        }
    }
}

impl StartupError {
    /// The message `Display` writes for this error.
    pub fn message(&self) -> (r: String)
        ensures
            r@ == startup_error_message(*self),
    {
        match self {
            StartupError::Path { error, route } => {
                let mut s = String::from_str("Path error ");
                push_str(&mut s, error.message());
                push_str(&mut s, " on route `");
                push_str(&mut s, route.as_str());
                push_str(&mut s, "`.");
                s
            },
            StartupError::InvalidIp => String::from_str("The IP address specified is invalid"),
            StartupError::InvalidSocketTimeout => String::from_str(
                "The socket timeout specified is invalid (must be greater than 0)",
            ),
            StartupError::ForbiddenDefaultHeader { header } => {
                let mut s = String::from_str("The header `");
                push_str(&mut s, header.as_str());
                push_str(&mut s, "` is forbidden and may not be used as a default header");
                s
            },
        }
    }
}

impl HandleError {
    /// The message `Display` writes for this error.
    pub fn message(&self) -> (r: String)
        ensures
            r@ == handle_error_message(*self),
    {
        match self {
            HandleError::NotImplemented => String::from_str("Route handler did not send a response"),
            HandleError::ResponseAlreadySent => String::from_str(
                "Route handler tried to send a response, but one was already sent",
            ),
            HandleError::NotFound(method, path) => {
                let mut s = String::from_str("No route found at ");
                push_str(&mut s, method.as_str());
                push_str(&mut s, " ");
                push_str(&mut s, path.as_str());
                s
            },
        }
    }
}

impl Error {
    /// The message `Display` writes for this error.
    pub fn message(&self) -> (r: String)
        ensures
            r@ == error_message(*self),
    {
        match self {
            Error::Handle(e) => e.message(),
            Error::Startup(e) => e.message(),
            Error::Stream(e) => String::from_str(e.message()),
            Error::Parse(e) => String::from_str(e.message()),
            Error::Io(e) => e.message.clone(),
            Error::Misc(e) => e.clone(),
            Error::NoResponse => String::from_str("None"),
        }
    }
}

// ---------------------------------------------------------------------------
// Equality
// ---------------------------------------------------------------------------

/// Startup errors are equal when they are the same variant with equal fields.
pub open spec fn startup_error_eq(a: StartupError, b: StartupError) -> bool {
    match (a, b) {
        (StartupError::InvalidIp, StartupError::InvalidIp) => true,
        (StartupError::InvalidSocketTimeout, StartupError::InvalidSocketTimeout) => true,
        (
            StartupError::ForbiddenDefaultHeader { header: h1 },
            StartupError::ForbiddenDefaultHeader { header: h2 },
        ) => h1@ == h2@,
        (StartupError::Path { error: e1, route: r1 }, StartupError::Path { error: e2, route: r2 }) => e1
            == e2 && r1@ == r2@,
        _ => false,
    }
}

/// Handle errors are equal when they are the same variant; two `NotFound`
/// errors also need the same method and path.
pub open spec fn handle_error_eq(a: HandleError, b: HandleError) -> bool {
    match (a, b) {
        (HandleError::NotFound(m1, p1), HandleError::NotFound(m2, p2)) => m1 == m2 && p1@ == p2@,
        (HandleError::NotImplemented, HandleError::NotImplemented) => true,
        (HandleError::ResponseAlreadySent, HandleError::ResponseAlreadySent) => true,
        _ => false,
    }
}

/// Errors are equal when they are the same variant and: their inner errors
/// are equal, I/O errors have the same kind, miscellaneous messages are the
/// same text; two `None` are equal.
pub open spec fn error_eq(a: Error, b: Error) -> bool {
    match (a, b) {
        (Error::Startup(x), Error::Startup(y)) => startup_error_eq(x, y),
        (Error::Stream(x), Error::Stream(y)) => x == y,
        (Error::Handle(x), Error::Handle(y)) => handle_error_eq(x, y),
        (Error::Parse(x), Error::Parse(y)) => x == y,
        (Error::Io(x), Error::Io(y)) => x.kind@ == y.kind@,
        (Error::Misc(x), Error::Misc(y)) => x@ == y@,
        (Error::NoResponse, Error::NoResponse) => true,
        _ => false,
    }
}

impl PartialEq for StartupError {
    fn eq(&self, other: &Self) -> (r: bool) {
        match (self, other) {
            (StartupError::InvalidIp, StartupError::InvalidIp) => true,
            (StartupError::InvalidSocketTimeout, StartupError::InvalidSocketTimeout) => true,
            (
                StartupError::ForbiddenDefaultHeader { header: h1 },
                StartupError::ForbiddenDefaultHeader { header: h2 },
            ) => str_eq(h1.as_str(), h2.as_str()),
            (
                StartupError::Path { error: e1, route: r1 },
                StartupError::Path { error: e2, route: r2 },
            ) => *e1 == *e2 && str_eq(r1.as_str(), r2.as_str()),
            _ => false,
        }
    }
}

impl vstd::std_specs::cmp::PartialEqSpecImpl for StartupError {
    open spec fn obeys_eq_spec() -> bool {
        true
    }

    open spec fn eq_spec(&self, other: &Self) -> bool {
        startup_error_eq(*self, *other)
    }
}

impl PartialEq for HandleError {
    fn eq(&self, other: &Self) -> (r: bool) {
        match (self, other) {
            (HandleError::NotFound(m1, p1), HandleError::NotFound(m2, p2)) => *m1 == *m2 && str_eq(
                p1.as_str(),
                p2.as_str(),
            ),
            (HandleError::NotImplemented, HandleError::NotImplemented) => true,
            (HandleError::ResponseAlreadySent, HandleError::ResponseAlreadySent) => true,
            _ => false,
        }
    }
}

impl vstd::std_specs::cmp::PartialEqSpecImpl for HandleError {
    open spec fn obeys_eq_spec() -> bool {
        true
    }

    open spec fn eq_spec(&self, other: &Self) -> bool {
        handle_error_eq(*self, *other)
    }
}

impl PartialEq for Error {
    fn eq(&self, other: &Self) -> (r: bool) {
        match (self, other) {
            (Error::Startup(x), Error::Startup(y)) => x.eq(y),
            (Error::Stream(x), Error::Stream(y)) => *x == *y,
            (Error::Handle(x), Error::Handle(y)) => x.eq(y),
            (Error::Parse(x), Error::Parse(y)) => *x == *y,
            (Error::Io(x), Error::Io(y)) => str_eq(x.kind.as_str(), y.kind.as_str()),
            (Error::Misc(x), Error::Misc(y)) => str_eq(x.as_str(), y.as_str()),
            (Error::NoResponse, Error::NoResponse) => true,
            _ => false,
        }
    }
}

impl vstd::std_specs::cmp::PartialEqSpecImpl for Error {
    open spec fn obeys_eq_spec() -> bool {
        true
    }

    open spec fn eq_spec(&self, other: &Self) -> bool {
        error_eq(*self, *other)
    }
}

// ---------------------------------------------------------------------------
// Conversions
// ---------------------------------------------------------------------------

impl From<StartupError> for Error {
    fn from(e: StartupError) -> (r: Error) {
        Error::Startup(e)
    }
}

impl vstd::std_specs::convert::FromSpecImpl<StartupError> for Error {
    open spec fn obeys_from_spec() -> bool {
        true
    }

    open spec fn from_spec(v: StartupError) -> Error {
        Error::Startup(v)
    }
}

impl From<StreamError> for Error {
    fn from(e: StreamError) -> (r: Error) {
        Error::Stream(e)
    }
}

impl vstd::std_specs::convert::FromSpecImpl<StreamError> for Error {
    open spec fn obeys_from_spec() -> bool {
        true
    }

    open spec fn from_spec(v: StreamError) -> Error {
        Error::Stream(v)
    }
}

impl From<ParseError> for Error {
    fn from(e: ParseError) -> (r: Error) {
        Error::Parse(e)
    }
}

impl vstd::std_specs::convert::FromSpecImpl<ParseError> for Error {
    open spec fn obeys_from_spec() -> bool {
        true
    }

    open spec fn from_spec(v: ParseError) -> Error {
        Error::Parse(v)
    }
}

impl From<HandleError> for Error {
    fn from(e: HandleError) -> (r: Error) {
        Error::Handle(e)
    }
}

impl vstd::std_specs::convert::FromSpecImpl<HandleError> for Error {
    open spec fn obeys_from_spec() -> bool {
        true
    }

    open spec fn from_spec(v: HandleError) -> Error {
        Error::Handle(v)
    }
}

} // verus!
