use std::sync::Arc;

use afire::internal::encoding::sha1::hash;
use afire::http::web_socket::accept_key;
use afire::http::web_socket::{frame_action, outgoing_frame, Frame, FrameAction, TxType, TxTypeInternal};
use afire::http::server_sent_events::{message_text, Event, EventType};
use afire::extensions::path_normalizer::normalize;
use afire::internal::http::parse_request_line;
use afire::handle::response_http;
use afire::extensions::serve_static::{get_type, safe_path, types, ServeStatic, MIME};
use afire::extensions::cache::path_match;
use afire::extensions::range::Range;
use afire::internal::handle::{post_step, pre_step, PreAction};
use afire::handle::handle_request;
use afire::internal::path::Path as RoutePath;

use afire::context::{Context, ContextFlag, ContextFlags};
use afire::error::{Error, HandleError, ParseError, StreamError};
use afire::extensions::cache::Cache;
use afire::extensions::date::{imp_date, Date};
use afire::extensions::ratelimit::{too_many_requests, RateLimiter};
use afire::header::Header;
use afire::http::method::Method;
use afire::http::query::Query;
use afire::http::status::Status;
use afire::internal::handle::{after_handler, close_action, error_response, AfterHandler, CloseAction};
use afire::internal::thread_pool::{resize_plan, worker_position, Resize};
use afire::middleware::MiddleResult;
use afire::request::{IpAddr, Request, SocketAddress};
use afire::response::{Response, ResponseBody, ResponseFlag};

fn request(method: Method, path: &str, headers: Vec<Header>) -> Request {
    Request {
        method,
        path: path.to_owned(),
        version: "HTTP/1.1".to_owned(),
        query: Query::new_empty(),
        headers,
        body: Vec::new(),
        address: SocketAddress { ip: IpAddr::V4(0x7f00_0001), port: 8080 },
    }
}

fn body_text(res: &Response) -> String {
    match &res.data {
        ResponseBody::Static(d) => String::from_utf8(d.clone()).unwrap(),
        _ => panic!("no static body"),
    }
}

#[test]
fn date_formats_known_moments() {
    assert_eq!(imp_date(0), "Thu, 01 Jan 1970 00:00:00 GMT");
    assert_eq!(imp_date(784111777), "Sun, 06 Nov 1994 08:49:37 GMT");
    assert_eq!(imp_date(951782400), "Tue, 29 Feb 2000 00:00:00 GMT");
    assert_eq!(imp_date(1709251199), "Thu, 29 Feb 2024 23:59:59 GMT");
    assert_eq!(imp_date(4102444800), "Fri, 01 Jan 2100 00:00:00 GMT");
}

#[test]
fn date_middleware_adds_header() {
    let mut res = Response::new();
    let r = Date.post(&mut res, 784111777);
    assert!(matches!(r, MiddleResult::Continue));
    assert_eq!(res.headers.len(), 1);
    assert_eq!(res.headers[0].name, "Date");
    assert_eq!(res.headers[0].value, "Sun, 06 Nov 1994 08:49:37 GMT");
}

#[test]
fn thread_pool_resize_plans() {
    assert_eq!(resize_plan(4, 4), Resize::Keep);
    assert_eq!(resize_plan(6, 4), Resize::Grow(2));
    assert_eq!(resize_plan(1, 4), Resize::Shrink(3));
    assert_eq!(resize_plan(3, 0), Resize::Grow(3));
}

#[test]
fn worker_position_finds_first() {
    assert_eq!(worker_position(&[4, 7, 9, 7], 7), Some(1));
    assert_eq!(worker_position(&[4, 7, 9], 5), None);
    assert_eq!(worker_position(&[], 5), None);
}

#[test]
fn context_sends_once() {
    let req = Arc::new(request(Method::GET, "/", Vec::new()));
    let mut ctx: Context<()> = Context::new(None, req);
    assert!(ctx.send().is_ok());
    assert!(!ctx.response_written());
    match ctx.send() {
        Err(Error::Handle(HandleError::ResponseAlreadySent)) => {},
        _ => panic!("a second send must be refused"),
    }
    assert!(ctx.flags.get(ContextFlag::ResponseSent));
}

#[test]
fn context_guaranteed_send_and_builders() {
    let req = Arc::new(request(Method::GET, "/", Vec::new()));
    let mut ctx: Context<()> = Context::new(None, req);
    ctx.guarantee_will_send().status(Status::NotFound).text("gone");
    assert!(ctx.flags.get(ContextFlag::GuaranteedSend));
    assert!(ctx.flags.get(ContextFlag::ResponseDirty));
    assert_eq!(ctx.response.status, Status::NotFound);
    assert_eq!(body_text(&ctx.response), "gone");
    assert!(ctx.response_written());
}

#[test]
fn context_modifier_changes_response() {
    let req = Arc::new(request(Method::GET, "/", Vec::new()));
    let mut ctx: Context<()> = Context::new(None, req);
    ctx.modifier(|r: Response| r.status(Status::Created));
    assert_eq!(ctx.response.status, Status::Created);
    assert!(ctx.flags.get(ContextFlag::ResponseDirty));
}

#[test]
fn after_handler_decisions() {
    let mut flags = ContextFlags::new();
    assert_eq!(after_handler(true, flags), AfterHandler::AnswerError);
    assert_eq!(after_handler(false, flags), AfterHandler::NotImplemented);
    flags.set(ContextFlag::GuaranteedSend);
    assert_eq!(after_handler(false, flags), AfterHandler::Wait);
    flags.set(ContextFlag::ResponseSent);
    assert_eq!(after_handler(false, flags), AfterHandler::Done);
}

#[test]
fn close_decisions() {
    assert_eq!(close_action(ResponseFlag::End, true, true), CloseAction::End);
    assert_eq!(close_action(ResponseFlag::Close, true, true), CloseAction::Shutdown);
    assert_eq!(close_action(ResponseFlag::Normal, false, true), CloseAction::Shutdown);
    assert_eq!(close_action(ResponseFlag::Normal, true, false), CloseAction::Shutdown);
    assert_eq!(close_action(ResponseFlag::Normal, true, true), CloseAction::KeepOpen);
}

#[test]
fn error_responses() {
    let res = error_response(&Error::Stream(StreamError::UnexpectedEof));
    assert_eq!(res.status, Status::BadRequest);
    assert_eq!(body_text(&res), "Unexpected EOF");

    let res = error_response(&Error::Parse(ParseError::NoMethod));
    assert_eq!(res.status, Status::BadRequest);
    assert_eq!(body_text(&res), "No method");

    let res = error_response(&Error::Parse(ParseError::InvalidHttpVersion));
    assert_eq!(res.status, Status::HTTPVersionNotSupported);

    let res = error_response(&Error::Handle(HandleError::NotFound(Method::POST, "/x".to_owned())));
    assert_eq!(res.status, Status::NotFound);
    assert_eq!(body_text(&res), "Cannot POST /x");
    assert_eq!(res.headers[0].name, "Content-Type");
    assert_eq!(res.headers[0].value, "text/plain");
}

#[test]
fn cache_serves_until_expiry() {
    let mut cache = Cache::new().timeout(100);
    assert!(cache.lookup(Method::GET, "/a", 10).is_none());
    let res = Response::new().text("cached");
    cache.store(Method::GET, "/a", &res, 10, true);
    let hit = cache.lookup(Method::GET, "/a", 50).unwrap();
    assert_eq!(body_text(&hit), "cached");
    // Another method or path is not served.
    assert!(cache.lookup(Method::POST, "/a", 50).is_none());
    assert!(cache.lookup(Method::GET, "/b", 50).is_none());
    // Expired: dropped.
    assert!(cache.lookup(Method::GET, "/a", 110).is_none());
    assert!(cache.lookup(Method::GET, "/a", 111).is_none());
    // Not cacheable: not stored.
    cache.store(Method::GET, "/c", &res, 200, false);
    assert!(cache.lookup(Method::GET, "/c", 200).is_none());
}

#[test]
fn cache_without_timeout_keeps_first() {
    let mut cache = Cache::new().timeout(0);
    cache.store(Method::GET, "/a", &Response::new().text("one"), 0, true);
    cache.store(Method::GET, "/a", &Response::new().text("two"), 5, true);
    let hit = cache.lookup(Method::GET, "/a", 1_000_000).unwrap();
    assert_eq!(body_text(&hit), "one");
}

#[test]
fn rate_limiter_counts_and_resets() {
    let ip = IpAddr::V4(0x0a00_0001);
    let other = IpAddr::V4(0x0a00_0002);
    let mut limiter = RateLimiter::new().limit(2).timeout(60);
    assert!(!limiter.is_over_limit(ip));
    limiter.end(ip, 10);
    assert!(!limiter.is_over_limit(ip));
    limiter.end(ip, 20);
    assert!(limiter.is_over_limit(ip));
    assert!(!limiter.is_over_limit(other));
    // The window has passed: counts start again.
    limiter.end(ip, 70);
    assert!(!limiter.is_over_limit(ip));
}

#[test]
fn rate_limiter_default_answer() {
    let res = too_many_requests();
    assert_eq!(res.status, Status::TooManyRequests);
    assert_eq!(res.status.code(), 429);
    assert_eq!(body_text(&res), "Too Many Requests");
    assert_eq!(res.headers[0].value, "text/plain");
}

#[test]
fn status_codes_round_trip() {
    for code in [100u16, 200, 201, 204, 301, 304, 400, 404, 429, 500, 501, 505] {
        assert_eq!(Status::from(code).code(), code);
    }
    assert_eq!(Status::NotFound.reason_phrase(), "Not Found");
    assert_eq!(Status::OK.reason_phrase(), "OK");
}

fn hex(bytes: &[u8]) -> String {
    bytes.iter().map(|b| format!("{:02x}", b)).collect()
}

#[test]
fn sha1_known_digests() {
    assert_eq!(hex(&hash(b"")), "da39a3ee5e6b4b0d3255bfef95601890afd80709");
    assert_eq!(hex(&hash(b"abc")), "a9993e364706816aba3e25717850c26c9cd0d89d");
    assert_eq!(
        hex(&hash(b"abcdbcdecdefdefgefghfghighijhijkijkljklmklmnlmnomnopnopq")),
        "84983e441c3bd26ebaae4aa1f95129e5e54670f1"
    );
    let long = vec![b'a'; 1000];
    assert_eq!(hex(&hash(&long)), "291e9a6c66994949b57ba5e650361e98fc36b1ba");
}

#[test]
fn websocket_accept_key() {
    assert_eq!(accept_key("dGhlIHNhbXBsZSBub25jZQ=="), "s3pPLMBiTxaQ9kYGzzhZRbK+xOo=");
}

#[test]
fn websocket_frames() {
    // A masked text frame holding "Hello".
    let bytes = [0x81u8, 0x85, 0x37, 0xfa, 0x21, 0x3d, 0x7f, 0x9f, 0x4d, 0x51, 0x58];
    assert!(Frame::fits(&bytes));
    assert!(!Frame::fits(&bytes[..10]));
    assert!(!Frame::fits(&[0x81]));
    assert!(Frame::fits(&[0x81, 0x05]));
    assert!(Frame::from_slice(&[0x81, 0x05]).is_none());
    let frame = Frame::from_slice(&bytes).unwrap();
    assert!(frame.fin);
    assert_eq!(frame.opcode, 1);
    assert_eq!(frame.payload, b"Hello".to_vec());
    assert_eq!(frame.to_bytes(), bytes.to_vec());
    match frame_action(frame) {
        FrameAction::Deliver(TxType::Text(t)) => assert_eq!(t, "Hello"),
        _ => panic!("a text frame is delivered"),
    }
    // A ping is answered, a close closes.
    let ping = Frame::from_slice(&[0x89u8, 0x80, 1, 2, 3, 4]).unwrap();
    assert!(matches!(frame_action(ping), FrameAction::Pong));
    let close = Frame::from_slice(&[0x88u8, 0x80, 1, 2, 3, 4]).unwrap();
    assert!(matches!(frame_action(close), FrameAction::Close));
    // Outgoing frames are not masked.
    let (f, shut) = outgoing_frame(TxTypeInternal::Text("hi".to_owned()));
    assert!(!shut);
    assert_eq!(f.to_bytes(), vec![0x81, 0x02, b'h', b'i']);
    let (f, shut) = outgoing_frame(TxTypeInternal::Close);
    assert!(shut);
    assert_eq!(f.to_bytes(), vec![0x88, 0x00]);
}

#[test]
fn websocket_frame_lengths_round_trip() {
    for len in [0usize, 125, 126, 200, 65535, 65536, 70000] {
        let payload: Vec<u8> = (0..len).map(|i| (i % 251) as u8).collect();
        let frame = Frame {
            fin: true,
            rsv: 0,
            opcode: 2,
            payload_len: len as u64,
            mask: Some([9, 8, 7, 6]),
            payload: payload.clone(),
        };
        let bytes = frame.to_bytes();
        let header = if len <= 125 { 2 } else if len <= 65535 { 4 } else { 10 };
        assert_eq!(bytes.len(), header + 4 + len);
        assert!(Frame::fits(&bytes));
        let back = Frame::from_slice(&bytes).unwrap();
        assert!(back.fin);
        assert_eq!(back.opcode, 2);
        assert_eq!(back.payload_len, len as u64);
        assert_eq!(back.mask, Some([9, 8, 7, 6]));
        assert_eq!(back.payload, payload);
        assert_eq!(back.to_bytes(), bytes);
    }
    // A payload of 200 bytes is announced by 126 and two length bytes.
    let frame = Frame { fin: true, rsv: 0, opcode: 2, payload_len: 200, mask: None, payload: vec![0; 200] };
    let bytes = frame.to_bytes();
    assert_eq!(&bytes[..4], &[0x82, 126, 0, 200]);
}

#[test]
fn sse_messages() {
    let t = message_text(&EventType::Event(Event::new("up").data("a\nb"))).unwrap();
    assert_eq!(t, "event: up\ndata: a\ndata: b\n\n");
    assert_eq!(message_text(&EventType::SetRetry(500)).unwrap(), "retry: 500\n\n");
    assert!(message_text(&EventType::Close).is_none());
}

#[test]
fn header_round_trip() {
    let h = Header::new("Content-Type", "text/html");
    let back = Header::from_string(&h.to_string()).unwrap();
    assert_eq!(back.name, "Content-Type");
    assert_eq!(back.value, "text/html");
    assert!(Header::from_string("no colon here").is_err());
}

#[test]
fn path_normalizer_laws_on_examples() {
    for p in ["//a///b//", "/", "", "a/b", "///"] {
        let mut once = p.to_owned();
        normalize(&mut once);
        let mut twice = once.clone();
        normalize(&mut twice);
        assert_eq!(once, twice);
    }
}

#[test]
fn safe_path_removes_traversal() {
    assert_eq!(safe_path("/hello/../../../data.db"), "/data.db");
    assert_eq!(safe_path("a/b/../c"), "a/c");
    assert_eq!(safe_path("a\\..\\b"), "b");
    assert_eq!(safe_path("plain/path.txt"), "plain/path.txt");
    assert_eq!(safe_path(".."), "");
    assert_eq!(safe_path("/.."), "");
    assert_eq!(safe_path("/a/../../b"), "/b");
    for p in ["/x/../../y", "..\\..\\etc/passwd", "a/../b/../.."] {
        let out = safe_path(p);
        assert!(out.split(['/', '\\']).all(|part| part != ".."));
    }
}

#[test]
fn static_file_types() {
    let s = ServeStatic::new("data");
    assert_eq!(s.content_type_for("html"), "text/html");
    assert_eq!(s.content_type_for("zip"), "application/zip");
    assert_eq!(s.content_type_for("7z"), "application/x-7z-compressed");
    assert_eq!(s.content_type_for("nope"), "application/octet-stream");
    let s = s.mime_type("nope", "x/first").mime_type("nope", "x/second").mime_type("html", "x/html");
    assert_eq!(s.content_type_for("nope"), "x/first");
    assert_eq!(s.content_type_for("html"), "text/html");
    assert_eq!(types().len(), 56);
}

#[test]
fn static_file_location() {
    let s = ServeStatic::new("data").path("/static");
    assert_eq!(s.serve_path, "static");
    let l = s.locate("static/css/site.css");
    assert_eq!(l.path, "data//css/site.css");
    assert_eq!(l.ext, "css");
    assert!(!l.disabled);
    let l = s.locate("static/docs/");
    assert_eq!(l.path, "data//docs/index.html");
    let l = s.locate("static/docs");
    assert_eq!(l.path, "data//docs/index.html");
    let l = s.locate("static/../../secret.txt");
    assert_eq!(l.path, "data//secret.txt");
}

#[test]
fn request_lines() {
    let (m, p, q, v) = parse_request_line(b"GET /a//b\\c?x=1&y=2 HTTP/1.1").unwrap();
    assert_eq!(m, Method::GET);
    assert_eq!(p, "/a/b/c");
    assert_eq!(q.get("x"), Some("1"));
    assert_eq!(q.get("y"), Some("2"));
    assert_eq!(v, "HTTP/1.1");
    let (m, p, _, _) = parse_request_line(b"post /x HTTP/1.0").unwrap();
    assert_eq!(m, Method::POST);
    assert_eq!(p, "/x");
    let err = |b: &[u8]| match parse_request_line(b) {
        Err(Error::Parse(e)) => e,
        _ => panic!("expected a parse error"),
    };
    assert_eq!(err(b""), ParseError::NoMethod);
    assert_eq!(err(b"   "), ParseError::NoMethod);
    assert_eq!(err(b"FETCH / HTTP/1.1"), ParseError::InvalidMethod);
    assert_eq!(err(b"ANY / HTTP/1.1"), ParseError::InvalidMethod);
    assert_eq!(err(b"GET"), ParseError::NoPath);
    assert_eq!(err(b"GET /"), ParseError::NoVersion);
}

#[test]
fn response_bytes_layout() {
    let res = Response::new().text("hi");
    let (bytes, sent) = response_http(&[Header::new("Server", "afire")], Ok(res));
    let text = String::from_utf8(bytes).unwrap();
    assert!(text.starts_with("HTTP/1.1 200 OK\r\n"));
    assert!(text.contains("Server: afire"));
    assert!(text.contains("Content-Length: 2"));
    assert!(text.ends_with("\r\n\r\nhi"));
    assert_eq!(sent.status, Status::OK);

    let (bytes, sent) = response_http(&[], Err(Error::Parse(ParseError::NoPath)));
    assert_eq!(sent.status, Status::BadRequest);
    let text = String::from_utf8(bytes).unwrap();
    assert!(text.starts_with("HTTP/1.1 400 Bad Request\r\n"));
    assert!(text.ends_with("No path"));
}

#[test]
fn context_state_and_params() {
    let req = Arc::new(request(Method::GET, "/hello/bob", Vec::new()));
    let mut ctx: Context<u32> = Context::new(Some(Arc::new(5)), req);
    assert_eq!(*ctx.app(), 5);
    let route = afire::internal::router::Path::new("/hello/{name}").unwrap();
    ctx.path_params = route.matches("/hello/bob");
    assert_eq!(ctx.param("name"), "bob");
    assert_eq!(ctx.param_idx(0), "bob");
}

#[test]
fn params_by_name_and_index_agree() {
    let req = Arc::new(request(Method::GET, "/users/ann/posts/7", Vec::new()));
    let mut ctx: Context<u32> = Context::new(None, req);
    let route = afire::internal::router::Path::new("/users/{user}/posts/{post}").unwrap();
    ctx.path_params = route.matches("/users/ann/posts/7");
    assert_eq!(ctx.param("user"), "ann");
    assert_eq!(ctx.param("post"), "7");
    assert_eq!(ctx.param("user"), ctx.param_idx(0));
    assert_eq!(ctx.param("post"), ctx.param_idx(1));
}

#[test]
fn with_response_overwrites() {
    let req = Arc::new(request(Method::GET, "/", Vec::new()));
    let mut ctx: Context<()> = Context::new(None, req);
    ctx.status(Status::NotFound).text("old");
    ctx.with_response(Response::new().status(Status::Created).text("new"));
    assert_eq!(ctx.response.status, Status::Created);
    assert_eq!(body_text(&ctx.response), "new");
}

#[test]
fn handle_errors_equal() {
    assert!(HandleError::ResponseAlreadySent == HandleError::ResponseAlreadySent);
    assert!(HandleError::NotImplemented == HandleError::NotImplemented);
    assert!(HandleError::NotImplemented != HandleError::ResponseAlreadySent);
    assert!(HandleError::NotFound(Method::GET, "/a".to_owned()) == HandleError::NotFound(Method::GET, "/a".to_owned()));
    assert!(HandleError::NotFound(Method::GET, "/a".to_owned()) != HandleError::NotFound(Method::GET, "/b".to_owned()));
}

#[test]
fn mime_lookup_in_given_list() {
    let exts = [MIME::new("a", "x/a"), MIME::new("b", "x/b")];
    assert_eq!(get_type("b", &exts), Some("x/b"));
    assert_eq!(get_type("a", &exts), Some("x/a"));
    assert_eq!(get_type("c", &exts), None);
    assert_eq!(get_type("css", &types()), Some("text/css"));
}

#[test]
fn cache_path_patterns() {
    let req = request(Method::GET, "/cache/page", Vec::new());
    assert!(path_match(&req, &["/cache/**"]));
    assert!(!path_match(&req, &["/other/**"]));
    assert!(path_match(&req, &["/other/**", "/cache/{x}"]));
}

#[test]
fn range_post_invalid_header() {
    let req = request(Method::GET, "/", vec![Header::new("Range", "lines=0-1")]);
    let mut res = Response::new().text("body");
    assert!(Range::new().post(&req, &mut res).is_none());
    assert_eq!(body_text(&res), "body");
    assert_eq!(res.status, Status::OK);
    let mut res = Response::new().text("body");
    assert!(Range::new().reject_invalid().post(&req, &mut res).is_none());
    assert_eq!(res.status, Status::RangeNotSatisfiable);
    assert_eq!(body_text(&res), "Range header: Missing bytes prefix");
}

#[test]
fn middleware_steps() {
    assert!(matches!(pre_step(MiddleResult::Continue), PreAction::Next));
    assert!(matches!(pre_step(MiddleResult::Abort), PreAction::Route));
    match pre_step(MiddleResult::Send(Response::new().text("x"))) {
        PreAction::Send(r) => assert_eq!(body_text(&r), "x"),
        _ => panic!("send is sent"),
    }
    let (r, stop) = post_step(Ok(Response::new().text("a")), MiddleResult::Continue);
    assert!(!stop);
    assert_eq!(body_text(&r.unwrap()), "a");
    let (r, stop) = post_step(Err(Error::NoResponse), MiddleResult::Abort);
    assert!(stop);
    assert!(r.is_err());
    let (r, stop) = post_step(Err(Error::NoResponse), MiddleResult::Send(Response::new().text("b")));
    assert!(stop);
    assert_eq!(body_text(&r.unwrap()), "b");
}

type Handler = Box<dyn Fn(&Request, &Vec<(String, String)>) -> Response>;

#[test]
fn handle_request_calls_last_matching_route() {
    let routes: Vec<(Method, RoutePath, Handler)> = vec![
        (Method::GET, RoutePath::new("/hello/{name}".to_owned()), Box::new(|_r: &Request, p: &Vec<(String, String)>| {
            Response::new().text(&format!("first {}", p[0].1))
        })),
        (Method::ANY, RoutePath::new("/hello/{name}".to_owned()), Box::new(|_r: &Request, p: &Vec<(String, String)>| {
            Response::new().text(&format!("second {}", p[0].1))
        })),
        (Method::POST, RoutePath::new("/other".to_owned()), Box::new(|_r: &Request, _p: &Vec<(String, String)>| {
            Response::new().text("other")
        })),
    ];
    let req = request(Method::GET, "/hello/bob", Vec::new());
    assert_eq!(body_text(&handle_request(&routes, &req).unwrap()), "second bob");
    let req = request(Method::GET, "/nowhere", Vec::new());
    match handle_request(&routes, &req) {
        Err(Error::Handle(HandleError::NotFound(m, p))) => {
            assert_eq!(m, Method::GET);
            assert_eq!(p, "/nowhere");
        },
        _ => panic!("not found"),
    }
}
