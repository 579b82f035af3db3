//! HTTP status codes.
//! Used in [`crate::request::Request`] and [`crate::response::Response`].
use vstd::prelude::*;

verus! {

/// HTTP status codes.
/// Used to indicate the status of an HTTP response.
/// Note: Methods that accept a [`Status`] will also accept any [`u16`] value, converting it to a Status::Custom if it is not a valid status code.
///
/// From <https://developer.mozilla.org/en-US/docs/Web/HTTP/Status>
#[derive(Debug, Clone, Copy, PartialEq, Eq, Structural, PartialOrd, Ord, Hash)]
pub enum Status {
    /// HTTP 100 Continue.
    /// [MDN](https://developer.mozilla.org/en-US/docs/Web/HTTP/Status/100)
    Continue,
    /// HTTP 101 Switching Protocols.
    /// [MDN](https://developer.mozilla.org/en-US/docs/Web/HTTP/Status/101)
    SwitchingProtocols,
    /// HTTP 103 Early Hints.
    /// [MDN](https://developer.mozilla.org/en-US/docs/Web/HTTP/Status/103)
    EarlyHints,
    /// HTTP 200 OK.
    /// [MDN](https://developer.mozilla.org/en-US/docs/Web/HTTP/Status/200)
    OK,
    /// HTTP 201 Created.
    /// [MDN](https://developer.mozilla.org/en-US/docs/Web/HTTP/Status/201)
    Created,
    /// HTTP 202 Accepted.
    /// [MDN](https://developer.mozilla.org/en-US/docs/Web/HTTP/Status/202)
    Accepted,
    /// HTTP 203 Non-Authoritative Information.
    /// [MDN](https://developer.mozilla.org/en-US/docs/Web/HTTP/Status/203)
    NonAuthoritativeInformation,
    /// HTTP 204 No Content.
    /// [MDN](https://developer.mozilla.org/en-US/docs/Web/HTTP/Status/204)
    NoContent,
    /// HTTP 205 Reset Content.
    /// [MDN](https://developer.mozilla.org/en-US/docs/Web/HTTP/Status/205)
    ResetContent,
    /// HTTP 206 Partial Content.
    /// [MDN](https://developer.mozilla.org/en-US/docs/Web/HTTP/Status/206)
    PartialContent,
    /// HTTP 300 Multiple Choices.
    /// [MDN](https://developer.mozilla.org/en-US/docs/Web/HTTP/Status/300)
    MultipleChoices,
    /// HTTP 301 Moved Permanently.
    /// [MDN](https://developer.mozilla.org/en-US/docs/Web/HTTP/Status/301)
    MovedPermanently,
    /// HTTP 302 Found.
    /// [MDN](https://developer.mozilla.org/en-US/docs/Web/HTTP/Status/302)
    Found,
    /// HTTP 303 See Other.
    /// [MDN](https://developer.mozilla.org/en-US/docs/Web/HTTP/Status/303)
    SeeOther,
    /// HTTP 304 Not Modified.
    /// [MDN](https://developer.mozilla.org/en-US/docs/Web/HTTP/Status/304)
    NotModified,
    /// HTTP 305 Use Proxy.
    /// [MDN](https://developer.mozilla.org/en-US/docs/Web/HTTP/Status/305)
    UseProxy,
    /// HTTP 307 Temporary Redirect.
    /// [MDN](https://developer.mozilla.org/en-US/docs/Web/HTTP/Status/307)
    TemporaryRedirect,
    /// HTTP 308 Permanent Redirect.
    /// [MDN](https://developer.mozilla.org/en-US/docs/Web/HTTP/Status/308)
    PermanentRedirect,
    /// HTTP 400 Bad Request.
    /// [MDN](https://developer.mozilla.org/en-US/docs/Web/HTTP/Status/400)
    BadRequest,
    /// HTTP 401 Unauthorized.
    /// [MDN](https://developer.mozilla.org/en-US/docs/Web/HTTP/Status/401)
    Unauthorized,
    /// HTTP 402 Payment Required.
    /// [MDN](https://developer.mozilla.org/en-US/docs/Web/HTTP/Status/402)
    PaymentRequired,
    /// HTTP 403 Forbidden.
    /// [MDN](https://developer.mozilla.org/en-US/docs/Web/HTTP/Status/403)
    Forbidden,
    /// HTTP 404 Not Found.
    /// [MDN](https://developer.mozilla.org/en-US/docs/Web/HTTP/Status/404)
    NotFound,
    /// HTTP 405 Method Not Allowed.
    /// [MDN](https://developer.mozilla.org/en-US/docs/Web/HTTP/Status/405)
    MethodNotAllowed,
    /// HTTP 406 Not Acceptable.
    /// [MDN](https://developer.mozilla.org/en-US/docs/Web/HTTP/Status/406)
    NotAcceptable,
    /// HTTP 407 Proxy Authentication Required.
    /// [MDN](https://developer.mozilla.org/en-US/docs/Web/HTTP/Status/407)
    ProxyAuthenticationRequired,
    /// HTTP 408 Request Time-out.
    /// [MDN](https://developer.mozilla.org/en-US/docs/Web/HTTP/Status/408)
    RequestTimeOut,
    /// HTTP 409 Conflict.
    /// [MDN](https://developer.mozilla.org/en-US/docs/Web/HTTP/Status/409)
    Conflict,
    /// HTTP 410 Gone.
    /// [MDN](https://developer.mozilla.org/en-US/docs/Web/HTTP/Status/410)
    Gone,
    /// HTTP 411 Length Required.
    /// [MDN](https://developer.mozilla.org/en-US/docs/Web/HTTP/Status/411)
    LengthRequired,
    /// HTTP 412 Precondition Failed.
    /// [MDN](https://developer.mozilla.org/en-US/docs/Web/HTTP/Status/412)
    PreconditionFailed,
    /// HTTP 413 Payload Too Large.
    /// [MDN](https://developer.mozilla.org/en-US/docs/Web/HTTP/Status/413)
    PayloadTooLarge,
    /// HTTP 414 URI Too Large.
    /// [MDN](https://developer.mozilla.org/en-US/docs/Web/HTTP/Status/414)
    URITooLarge,
    /// HTTP 415 Unsupported Media Type.
    /// [MDN](https://developer.mozilla.org/en-US/docs/Web/HTTP/Status/415)
    UnsupportedMediaType,
    /// HTTP 416 Range Not Satisfiable.
    /// [MDN](https://developer.mozilla.org/en-US/docs/Web/HTTP/Status/416)
    RangeNotSatisfiable,
    /// HTTP 417 Expectation Failed.
    /// [MDN](https://developer.mozilla.org/en-US/docs/Web/HTTP/Status/417)
    ExpectationFailed,
    /// HTTP 418 I'm a teapot.
    /// [MDN](https://developer.mozilla.org/en-US/docs/Web/HTTP/Status/418)
    ImaTeapot,
    /// HTTP 421 Misdirected Request.
    /// [MDN](https://developer.mozilla.org/en-US/docs/Web/HTTP/Status/421)
    MisdirectedRequest,
    /// HTTP 425 Too Early.
    /// [MDN](https://developer.mozilla.org/en-US/docs/Web/HTTP/Status/425)
    TooEarly,
    /// HTTP 426 Upgrade Required.
    /// [MDN](https://developer.mozilla.org/en-US/docs/Web/HTTP/Status/426)
    UpgradeRequired,
    /// HTTP 428 Precondition Required.
    /// [MDN](https://developer.mozilla.org/en-US/docs/Web/HTTP/Status/428)
    PreconditionRequired,
    /// HTTP 429 Too Many Requests.
    /// [MDN](https://developer.mozilla.org/en-US/docs/Web/HTTP/Status/429)
    TooManyRequests,
    /// HTTP 431 Request Header Fields Too Large.
    /// [MDN](https://developer.mozilla.org/en-US/docs/Web/HTTP/Status/431)
    RequestHeaderFieldsTooLarge,
    /// HTTP 451 Unavailable For Legal Reasons.
    /// [MDN](https://developer.mozilla.org/en-US/docs/Web/HTTP/Status/451)
    UnavailableForLegalReasons,
    /// HTTP 500 Internal Server Error.
    /// [MDN](https://developer.mozilla.org/en-US/docs/Web/HTTP/Status/500)
    InternalServerError,
    /// HTTP 501 Not Implemented.
    /// [MDN](https://developer.mozilla.org/en-US/docs/Web/HTTP/Status/501)
    NotImplemented,
    /// HTTP 502 Bad Gateway.
    /// [MDN](https://developer.mozilla.org/en-US/docs/Web/HTTP/Status/502)
    BadGateway,
    /// HTTP 503 Service Unavailable.
    /// [MDN](https://developer.mozilla.org/en-US/docs/Web/HTTP/Status/503)
    ServiceUnavailable,
    /// HTTP 504 Gateway Time-out.
    /// [MDN](https://developer.mozilla.org/en-US/docs/Web/HTTP/Status/504)
    GatewayTimeOut,
    /// HTTP 505 HTTP Version Not Supported.
    /// [MDN](https://developer.mozilla.org/en-US/docs/Web/HTTP/Status/505)
    HTTPVersionNotSupported,
    /// HTTP 506 Variant Also Negotiates.
    /// [MDN](https://developer.mozilla.org/en-US/docs/Web/HTTP/Status/506)
    VariantAlsoNegotiates,
    /// HTTP 510 Not Extended.
    /// [MDN](https://developer.mozilla.org/en-US/docs/Web/HTTP/Status/510)
    NotExtended,
    /// HTTP 511 Network Authentication Required.
    /// [MDN](https://developer.mozilla.org/en-US/docs/Web/HTTP/Status/511)
    NetworkAuthenticationRequired,
    /// Custom status code
    Custom(u16),
}

/// The numeric code of a status.
pub open spec fn code_spec(s: Status) -> u16 {
    match s {
        Status::Continue => 100,
        Status::SwitchingProtocols => 101,
        Status::EarlyHints => 103,
        Status::OK => 200,
        Status::Created => 201,
        Status::Accepted => 202,
        Status::NonAuthoritativeInformation => 203,
        Status::NoContent => 204,
        Status::ResetContent => 205,
        Status::PartialContent => 206,
        Status::MultipleChoices => 300,
        Status::MovedPermanently => 301,
        Status::Found => 302,
        Status::SeeOther => 303,
        Status::NotModified => 304,
        Status::UseProxy => 305,
        Status::TemporaryRedirect => 307,
        Status::PermanentRedirect => 308,
        Status::BadRequest => 400,
        Status::Unauthorized => 401,
        Status::PaymentRequired => 402,
        Status::Forbidden => 403,
        Status::NotFound => 404,
        Status::MethodNotAllowed => 405,
        Status::NotAcceptable => 406,
        Status::ProxyAuthenticationRequired => 407,
        Status::RequestTimeOut => 408,
        Status::Conflict => 409,
        Status::Gone => 410,
        Status::LengthRequired => 411,
        Status::PreconditionFailed => 412,
        Status::PayloadTooLarge => 413,
        Status::URITooLarge => 414,
        Status::UnsupportedMediaType => 415,
        Status::RangeNotSatisfiable => 416,
        Status::ExpectationFailed => 417,
        Status::ImaTeapot => 418,
        Status::MisdirectedRequest => 421,
        Status::TooEarly => 425,
        Status::UpgradeRequired => 426,
        Status::PreconditionRequired => 428,
        Status::TooManyRequests => 429,
        Status::RequestHeaderFieldsTooLarge => 431,
        Status::UnavailableForLegalReasons => 451,
        Status::InternalServerError => 500,
        Status::NotImplemented => 501,
        Status::BadGateway => 502,
        Status::ServiceUnavailable => 503,
        Status::GatewayTimeOut => 504,
        Status::HTTPVersionNotSupported => 505,
        Status::VariantAlsoNegotiates => 506,
        Status::NotExtended => 510,
        Status::NetworkAuthenticationRequired => 511,
        Status::Custom(x) => x,
    }
}

/// The status a numeric code stands for: a named status for the codes listed
/// in [`Status`], `Custom` for every other code.
pub open spec fn from_code_spec(code: u16) -> Status {
    if code == 100 {
        Status::Continue
    } else if code == 101 {
        Status::SwitchingProtocols
    } else if code == 103 {
        Status::EarlyHints
    } else if code == 200 {
        Status::OK
    } else if code == 201 {
        Status::Created
    } else if code == 202 {
        Status::Accepted
    } else if code == 203 {
        Status::NonAuthoritativeInformation
    } else if code == 204 {
        Status::NoContent
    } else if code == 205 {
        Status::ResetContent
    } else if code == 206 {
        Status::PartialContent
    } else if code == 300 {
        Status::MultipleChoices
    } else if code == 301 {
        Status::MovedPermanently
    } else if code == 302 {
        Status::Found
    } else if code == 303 {
        Status::SeeOther
    } else if code == 304 {
        Status::NotModified
    } else if code == 305 {
        Status::UseProxy
    } else if code == 307 {
        Status::TemporaryRedirect
    } else if code == 308 {
        Status::PermanentRedirect
    } else if code == 400 {
        Status::BadRequest
    } else if code == 401 {
        Status::Unauthorized
    } else if code == 402 {
        Status::PaymentRequired
    } else if code == 403 {
        Status::Forbidden
    } else if code == 404 {
        Status::NotFound
    } else if code == 405 {
        Status::MethodNotAllowed
    } else if code == 406 {
        Status::NotAcceptable
    } else if code == 407 {
        Status::ProxyAuthenticationRequired
    } else if code == 408 {
        Status::RequestTimeOut
    } else if code == 409 {
        Status::Conflict
    } else if code == 410 {
        Status::Gone
    } else if code == 411 {
        Status::LengthRequired
    } else if code == 412 {
        Status::PreconditionFailed
    } else if code == 413 {
        Status::PayloadTooLarge
    } else if code == 414 {
        Status::URITooLarge
    } else if code == 415 {
        Status::UnsupportedMediaType
    } else if code == 416 {
        Status::RangeNotSatisfiable
    } else if code == 417 {
        Status::ExpectationFailed
    } else if code == 418 {
        Status::ImaTeapot
    } else if code == 421 {
        Status::MisdirectedRequest
    } else if code == 425 {
        Status::TooEarly
    } else if code == 426 {
        Status::UpgradeRequired
    } else if code == 428 {
        Status::PreconditionRequired
    } else if code == 429 {
        Status::TooManyRequests
    } else if code == 431 {
        Status::RequestHeaderFieldsTooLarge
    } else if code == 451 {
        Status::UnavailableForLegalReasons
    } else if code == 500 {
        Status::InternalServerError
    } else if code == 501 {
        Status::NotImplemented
    } else if code == 502 {
        Status::BadGateway
    } else if code == 503 {
        Status::ServiceUnavailable
    } else if code == 504 {
        Status::GatewayTimeOut
    } else if code == 505 {
        Status::HTTPVersionNotSupported
    } else if code == 506 {
        Status::VariantAlsoNegotiates
    } else if code == 510 {
        Status::NotExtended
    } else if code == 511 {
        Status::NetworkAuthenticationRequired
    } else {
        Status::Custom(code)
    }
}

/// The default reason phrase of a numeric code; `OK` for unknown codes.
pub open spec fn reason_spec(code: u16) -> Seq<char> {
    if code == 100 {
        "Continue"@
    } else if code == 101 {
        "Switching Protocols"@
    } else if code == 103 {
        "Early Hints"@
    } else if code == 200 {
        "OK"@
    } else if code == 201 {
        "Created"@
    } else if code == 202 {
        "Accepted"@
    } else if code == 203 {
        "Non-Authoritative Information"@
    } else if code == 204 {
        "No Content"@
    } else if code == 205 {
        "Reset Content"@
    } else if code == 206 {
        "Partial Content"@
    } else if code == 300 {
        "Multiple Choices"@
    } else if code == 301 {
        "Moved Permanently"@
    } else if code == 302 {
        "Found"@
    } else if code == 303 {
        "See Other"@
    } else if code == 304 {
        "Not Modified"@
    } else if code == 305 {
        "Use Proxy"@
    } else if code == 307 {
        "Temporary Redirect"@
    } else if code == 308 {
        "Permanent Redirect"@
    } else if code == 400 {
        "Bad Request"@
    } else if code == 401 {
        "Unauthorized"@
    } else if code == 402 {
        "Payment Required"@
    } else if code == 403 {
        "Forbidden"@
    } else if code == 404 {
        "Not Found"@
    } else if code == 405 {
        "Method Not Allowed"@
    } else if code == 406 {
        "Not Acceptable"@
    } else if code == 407 {
        "Proxy Authentication Required"@
    } else if code == 408 {
        "Request Time-out"@
    } else if code == 409 {
        "Conflict"@
    } else if code == 410 {
        "Gone"@
    } else if code == 411 {
        "Length Required"@
    } else if code == 412 {
        "Precondition Failed"@
    } else if code == 413 {
        "Request Entity Too Large"@
    } else if code == 414 {
        "Request-URI Too Large"@
    } else if code == 415 {
        "Unsupported Media Type"@
    } else if code == 416 {
        "Requested range not satisfiable"@
    } else if code == 417 {
        "Expectation Failed"@
    } else if code == 418 {
        "I'm a teapot"@
    } else if code == 421 {
        "Misdirected Request"@
    } else if code == 425 {
        "Too Early"@
    } else if code == 426 {
        "Upgrade Required"@
    } else if code == 428 {
        "Precondition Required"@
    } else if code == 429 {
        "Too Many Requests"@
    } else if code == 431 {
        "Request Header Fields Too Large"@
    } else if code == 451 {
        "Unavailable For Legal Reasons"@
    } else if code == 500 {
        "Internal Server Error"@
    } else if code == 501 {
        "Not Implemented"@
    } else if code == 502 {
        "Bad Gateway"@
    } else if code == 503 {
        "Service Unavailable"@
    } else if code == 504 {
        "Gateway Time-out"@
    } else if code == 505 {
        "HTTP Version not supported"@
    } else if code == 506 {
        "Variant Also Negotiates"@
    } else if code == 510 {
        "Not Extended"@
    } else if code == 511 {
        "Network Authentication Required"@
    } else {
        "OK"@
    }
}

impl Status {
    /// Gets the actual HTTP status code for the status.
    pub fn code(&self) -> (r: u16)
        ensures
            r == code_spec(*self),
    {
        match self {
            Status::Continue => 100,
            Status::SwitchingProtocols => 101,
            Status::EarlyHints => 103,
            Status::OK => 200,
            Status::Created => 201,
            Status::Accepted => 202,
            Status::NonAuthoritativeInformation => 203,
            Status::NoContent => 204,
            Status::ResetContent => 205,
            Status::PartialContent => 206,
            Status::MultipleChoices => 300,
            Status::MovedPermanently => 301,
            Status::Found => 302,
            Status::SeeOther => 303,
            Status::NotModified => 304,
            Status::UseProxy => 305,
            Status::TemporaryRedirect => 307,
            Status::PermanentRedirect => 308,
            Status::BadRequest => 400,
            Status::Unauthorized => 401,
            Status::PaymentRequired => 402,
            Status::Forbidden => 403,
            Status::NotFound => 404,
            Status::MethodNotAllowed => 405,
            Status::NotAcceptable => 406,
            Status::ProxyAuthenticationRequired => 407,
            Status::RequestTimeOut => 408,
            Status::Conflict => 409,
            Status::Gone => 410,
            Status::LengthRequired => 411,
            Status::PreconditionFailed => 412,
            Status::PayloadTooLarge => 413,
            Status::URITooLarge => 414,
            Status::UnsupportedMediaType => 415,
            Status::RangeNotSatisfiable => 416,
            Status::ExpectationFailed => 417,
            Status::ImaTeapot => 418,
            Status::MisdirectedRequest => 421,
            Status::TooEarly => 425,
            Status::UpgradeRequired => 426,
            Status::PreconditionRequired => 428,
            Status::TooManyRequests => 429,
            Status::RequestHeaderFieldsTooLarge => 431,
            Status::UnavailableForLegalReasons => 451,
            Status::InternalServerError => 500,
            Status::NotImplemented => 501,
            Status::BadGateway => 502,
            Status::ServiceUnavailable => 503,
            Status::GatewayTimeOut => 504,
            Status::HTTPVersionNotSupported => 505,
            Status::VariantAlsoNegotiates => 506,
            Status::NotExtended => 510,
            Status::NetworkAuthenticationRequired => 511,
            Status::Custom(x) => *x,
        }
    }

    /// Gets the default reason phrase for the status.
    /// For responses you can use [`crate::response::Response::reason`] to set a custom reason phrase.
    pub fn reason_phrase(&self) -> (r: &'static str)
        ensures
            r@ == reason_spec(code_spec(*self)),
    {
        let code = self.code();
        if code == 100 {
            "Continue"
        } else if code == 101 {
            "Switching Protocols"
        } else if code == 103 {
            "Early Hints"
        } else if code == 200 {
            "OK"
        } else if code == 201 {
            "Created"
        } else if code == 202 {
            "Accepted"
        } else if code == 203 {
            "Non-Authoritative Information"
        } else if code == 204 {
            "No Content"
        } else if code == 205 {
            "Reset Content"
        } else if code == 206 {
            "Partial Content"
        } else if code == 300 {
            "Multiple Choices"
        } else if code == 301 {
            "Moved Permanently"
        } else if code == 302 {
            "Found"
        } else if code == 303 {
            "See Other"
        } else if code == 304 {
            "Not Modified"
        } else if code == 305 {
            "Use Proxy"
        } else if code == 307 {
            "Temporary Redirect"
        } else if code == 308 {
            "Permanent Redirect"
        } else if code == 400 {
            "Bad Request"
        } else if code == 401 {
            "Unauthorized"
        } else if code == 402 {
            "Payment Required"
        } else if code == 403 {
            "Forbidden"
        } else if code == 404 {
            "Not Found"
        } else if code == 405 {
            "Method Not Allowed"
        } else if code == 406 {
            "Not Acceptable"
        } else if code == 407 {
            "Proxy Authentication Required"
        } else if code == 408 {
            "Request Time-out"
        } else if code == 409 {
            "Conflict"
        } else if code == 410 {
            "Gone"
        } else if code == 411 {
            "Length Required"
        } else if code == 412 {
            "Precondition Failed"
        } else if code == 413 {
            "Request Entity Too Large"
        } else if code == 414 {
            "Request-URI Too Large"
        } else if code == 415 {
            "Unsupported Media Type"
        } else if code == 416 {
            "Requested range not satisfiable"
        } else if code == 417 {
            "Expectation Failed"
        } else if code == 418 {
            "I'm a teapot"
        } else if code == 421 {
            "Misdirected Request"
        } else if code == 425 {
            "Too Early"
        } else if code == 426 {
            "Upgrade Required"
        } else if code == 428 {
            "Precondition Required"
        } else if code == 429 {
            "Too Many Requests"
        } else if code == 431 {
            "Request Header Fields Too Large"
        } else if code == 451 {
            "Unavailable For Legal Reasons"
        } else if code == 500 {
            "Internal Server Error"
        } else if code == 501 {
            "Not Implemented"
        } else if code == 502 {
            "Bad Gateway"
        } else if code == 503 {
            "Service Unavailable"
        } else if code == 504 {
            "Gateway Time-out"
        } else if code == 505 {
            "HTTP Version not supported"
        } else if code == 506 {
            "Variant Also Negotiates"
        } else if code == 510 {
            "Not Extended"
        } else if code == 511 {
            "Network Authentication Required"
        } else {
            "OK"
        }
    }
}

impl From<u16> for Status {
    fn from(code: u16) -> (r: Status) {
        match code {
            100 => Status::Continue,
            101 => Status::SwitchingProtocols,
            103 => Status::EarlyHints,
            200 => Status::OK,
            201 => Status::Created,
            202 => Status::Accepted,
            203 => Status::NonAuthoritativeInformation,
            204 => Status::NoContent,
            205 => Status::ResetContent,
            206 => Status::PartialContent,
            300 => Status::MultipleChoices,
            301 => Status::MovedPermanently,
            302 => Status::Found,
            303 => Status::SeeOther,
            304 => Status::NotModified,
            305 => Status::UseProxy,
            307 => Status::TemporaryRedirect,
            308 => Status::PermanentRedirect,
            400 => Status::BadRequest,
            401 => Status::Unauthorized,
            402 => Status::PaymentRequired,
            403 => Status::Forbidden,
            404 => Status::NotFound,
            405 => Status::MethodNotAllowed,
            406 => Status::NotAcceptable,
            407 => Status::ProxyAuthenticationRequired,
            408 => Status::RequestTimeOut,
            409 => Status::Conflict,
            410 => Status::Gone,
            411 => Status::LengthRequired,
            412 => Status::PreconditionFailed,
            413 => Status::PayloadTooLarge,
            414 => Status::URITooLarge,
            415 => Status::UnsupportedMediaType,
            416 => Status::RangeNotSatisfiable,
            417 => Status::ExpectationFailed,
            418 => Status::ImaTeapot,
            421 => Status::MisdirectedRequest,
            425 => Status::TooEarly,
            426 => Status::UpgradeRequired,
            428 => Status::PreconditionRequired,
            429 => Status::TooManyRequests,
            431 => Status::RequestHeaderFieldsTooLarge,
            451 => Status::UnavailableForLegalReasons,
            500 => Status::InternalServerError,
            501 => Status::NotImplemented,
            502 => Status::BadGateway,
            503 => Status::ServiceUnavailable,
            504 => Status::GatewayTimeOut,
            505 => Status::HTTPVersionNotSupported,
            506 => Status::VariantAlsoNegotiates,
            510 => Status::NotExtended,
            511 => Status::NetworkAuthenticationRequired,
            x => Status::Custom(x),
        }
    }
}

impl vstd::std_specs::convert::FromSpecImpl<u16> for Status {
    open spec fn obeys_from_spec() -> bool {
        true
    }

    open spec fn from_spec(v: u16) -> Status {
        from_code_spec(v)
    }
}

/// Converting a code to a status and back gives the same code, for every
/// `u16`: known codes become their named status, others `Custom`.
pub proof fn lemma_code_of_from_code(code: u16)
    ensures
        code_spec(from_code_spec(code)) == code,
{
}

/// A named status converts to its code and back to itself; only `Custom`
/// statuses holding a listed code come back as the named status.
pub proof fn lemma_from_code_of_code(s: Status)
    requires
        !(s is Custom) || from_code_spec(code_spec(s)) is Custom,
    ensures
        from_code_spec(code_spec(s)) == s,
{
}

/// Every named status has the code of its name, that code converts back to
/// it, and the reason phrase of that code is the standard one: the table of
/// RFC 9110 and the registered extensions, as the documentation of each
/// variant lists it. A `Custom` status has the code it holds, and a code
/// that names no status has the phrase `OK`.
pub proof fn lemma_status_table()
    ensures
        code_spec(Status::Continue) == 100 && from_code_spec(100) == Status::Continue && reason_spec(100) == "Continue"@,
        code_spec(Status::SwitchingProtocols) == 101 && from_code_spec(101) == Status::SwitchingProtocols && reason_spec(101) == "Switching Protocols"@,
        code_spec(Status::EarlyHints) == 103 && from_code_spec(103) == Status::EarlyHints && reason_spec(103) == "Early Hints"@,
        code_spec(Status::OK) == 200 && from_code_spec(200) == Status::OK && reason_spec(200) == "OK"@,
        code_spec(Status::Created) == 201 && from_code_spec(201) == Status::Created && reason_spec(201) == "Created"@,
        code_spec(Status::Accepted) == 202 && from_code_spec(202) == Status::Accepted && reason_spec(202) == "Accepted"@,
        code_spec(Status::NonAuthoritativeInformation) == 203 && from_code_spec(203) == Status::NonAuthoritativeInformation && reason_spec(203) == "Non-Authoritative Information"@,
        code_spec(Status::NoContent) == 204 && from_code_spec(204) == Status::NoContent && reason_spec(204) == "No Content"@,
        code_spec(Status::ResetContent) == 205 && from_code_spec(205) == Status::ResetContent && reason_spec(205) == "Reset Content"@,
        code_spec(Status::PartialContent) == 206 && from_code_spec(206) == Status::PartialContent && reason_spec(206) == "Partial Content"@,
        code_spec(Status::MultipleChoices) == 300 && from_code_spec(300) == Status::MultipleChoices && reason_spec(300) == "Multiple Choices"@,
        code_spec(Status::MovedPermanently) == 301 && from_code_spec(301) == Status::MovedPermanently && reason_spec(301) == "Moved Permanently"@,
        code_spec(Status::Found) == 302 && from_code_spec(302) == Status::Found && reason_spec(302) == "Found"@,
        code_spec(Status::SeeOther) == 303 && from_code_spec(303) == Status::SeeOther && reason_spec(303) == "See Other"@,
        code_spec(Status::NotModified) == 304 && from_code_spec(304) == Status::NotModified && reason_spec(304) == "Not Modified"@,
        code_spec(Status::UseProxy) == 305 && from_code_spec(305) == Status::UseProxy && reason_spec(305) == "Use Proxy"@,
        code_spec(Status::TemporaryRedirect) == 307 && from_code_spec(307) == Status::TemporaryRedirect && reason_spec(307) == "Temporary Redirect"@,
        code_spec(Status::PermanentRedirect) == 308 && from_code_spec(308) == Status::PermanentRedirect && reason_spec(308) == "Permanent Redirect"@,
        code_spec(Status::BadRequest) == 400 && from_code_spec(400) == Status::BadRequest && reason_spec(400) == "Bad Request"@,
        code_spec(Status::Unauthorized) == 401 && from_code_spec(401) == Status::Unauthorized && reason_spec(401) == "Unauthorized"@,
        code_spec(Status::PaymentRequired) == 402 && from_code_spec(402) == Status::PaymentRequired && reason_spec(402) == "Payment Required"@,
        code_spec(Status::Forbidden) == 403 && from_code_spec(403) == Status::Forbidden && reason_spec(403) == "Forbidden"@,
        code_spec(Status::NotFound) == 404 && from_code_spec(404) == Status::NotFound && reason_spec(404) == "Not Found"@,
        code_spec(Status::MethodNotAllowed) == 405 && from_code_spec(405) == Status::MethodNotAllowed && reason_spec(405) == "Method Not Allowed"@,
        code_spec(Status::NotAcceptable) == 406 && from_code_spec(406) == Status::NotAcceptable && reason_spec(406) == "Not Acceptable"@,
        code_spec(Status::ProxyAuthenticationRequired) == 407 && from_code_spec(407) == Status::ProxyAuthenticationRequired && reason_spec(407) == "Proxy Authentication Required"@,
        code_spec(Status::RequestTimeOut) == 408 && from_code_spec(408) == Status::RequestTimeOut && reason_spec(408) == "Request Time-out"@,
        code_spec(Status::Conflict) == 409 && from_code_spec(409) == Status::Conflict && reason_spec(409) == "Conflict"@,
        code_spec(Status::Gone) == 410 && from_code_spec(410) == Status::Gone && reason_spec(410) == "Gone"@,
        code_spec(Status::LengthRequired) == 411 && from_code_spec(411) == Status::LengthRequired && reason_spec(411) == "Length Required"@,
        code_spec(Status::PreconditionFailed) == 412 && from_code_spec(412) == Status::PreconditionFailed && reason_spec(412) == "Precondition Failed"@,
        code_spec(Status::PayloadTooLarge) == 413 && from_code_spec(413) == Status::PayloadTooLarge && reason_spec(413) == "Request Entity Too Large"@,
        code_spec(Status::URITooLarge) == 414 && from_code_spec(414) == Status::URITooLarge && reason_spec(414) == "Request-URI Too Large"@,
        code_spec(Status::UnsupportedMediaType) == 415 && from_code_spec(415) == Status::UnsupportedMediaType && reason_spec(415) == "Unsupported Media Type"@,
        code_spec(Status::RangeNotSatisfiable) == 416 && from_code_spec(416) == Status::RangeNotSatisfiable && reason_spec(416) == "Requested range not satisfiable"@,
        code_spec(Status::ExpectationFailed) == 417 && from_code_spec(417) == Status::ExpectationFailed && reason_spec(417) == "Expectation Failed"@,
        code_spec(Status::ImaTeapot) == 418 && from_code_spec(418) == Status::ImaTeapot && reason_spec(418) == "I'm a teapot"@,
        code_spec(Status::MisdirectedRequest) == 421 && from_code_spec(421) == Status::MisdirectedRequest && reason_spec(421) == "Misdirected Request"@,
        code_spec(Status::TooEarly) == 425 && from_code_spec(425) == Status::TooEarly && reason_spec(425) == "Too Early"@,
        code_spec(Status::UpgradeRequired) == 426 && from_code_spec(426) == Status::UpgradeRequired && reason_spec(426) == "Upgrade Required"@,
        code_spec(Status::PreconditionRequired) == 428 && from_code_spec(428) == Status::PreconditionRequired && reason_spec(428) == "Precondition Required"@,
        code_spec(Status::TooManyRequests) == 429 && from_code_spec(429) == Status::TooManyRequests && reason_spec(429) == "Too Many Requests"@,
        code_spec(Status::RequestHeaderFieldsTooLarge) == 431 && from_code_spec(431) == Status::RequestHeaderFieldsTooLarge && reason_spec(431) == "Request Header Fields Too Large"@,
        code_spec(Status::UnavailableForLegalReasons) == 451 && from_code_spec(451) == Status::UnavailableForLegalReasons && reason_spec(451) == "Unavailable For Legal Reasons"@,
        code_spec(Status::InternalServerError) == 500 && from_code_spec(500) == Status::InternalServerError && reason_spec(500) == "Internal Server Error"@,
        code_spec(Status::NotImplemented) == 501 && from_code_spec(501) == Status::NotImplemented && reason_spec(501) == "Not Implemented"@,
        code_spec(Status::BadGateway) == 502 && from_code_spec(502) == Status::BadGateway && reason_spec(502) == "Bad Gateway"@,
        code_spec(Status::ServiceUnavailable) == 503 && from_code_spec(503) == Status::ServiceUnavailable && reason_spec(503) == "Service Unavailable"@,
        code_spec(Status::GatewayTimeOut) == 504 && from_code_spec(504) == Status::GatewayTimeOut && reason_spec(504) == "Gateway Time-out"@,
        code_spec(Status::HTTPVersionNotSupported) == 505 && from_code_spec(505) == Status::HTTPVersionNotSupported && reason_spec(505) == "HTTP Version not supported"@,
        code_spec(Status::VariantAlsoNegotiates) == 506 && from_code_spec(506) == Status::VariantAlsoNegotiates && reason_spec(506) == "Variant Also Negotiates"@,
        code_spec(Status::NotExtended) == 510 && from_code_spec(510) == Status::NotExtended && reason_spec(510) == "Not Extended"@,
        code_spec(Status::NetworkAuthenticationRequired) == 511 && from_code_spec(511) == Status::NetworkAuthenticationRequired && reason_spec(511) == "Network Authentication Required"@,
        forall|c: u16| #[trigger] code_spec(Status::Custom(c)) == c,
        forall|c: u16| #[trigger] from_code_spec(c) is Custom ==> reason_spec(c) == "OK"@,
{
}

} // verus!
