//! HTTP protocol pieces: cookies, methods, query strings, status codes,
//! server-sent events and WebSocket frames.
pub mod cookie;
pub mod method;
pub mod query;
pub mod status;
pub mod server_sent_events;
pub mod web_socket;

use vstd::prelude::*;
use vstd::string::StringExecFns;
use vstd::utf8::encode_utf8;

use crate::cookie::{cookies_spec, cookies_view, Cookie};
use crate::header::{header_parse_spec, Header};
use crate::http::query::{from_body_spec, Query};
use crate::other::Method;
use crate::text::{
    chars_of, has_prefix, push_char, split_char, split_chars, split_chars_by, split_str,
    starts_with, str_eq, str_to_uppercase, to_uppercase, trim_class, trim_spec, CharClass,
};

verus! {

/// The named method whose upper-case name is `s`, if any.
pub open spec fn named_method(s: Seq<char>) -> Option<Method> {
    if s == "GET"@ {
        Some(Method::GET)
    } else if s == "POST"@ {
        Some(Method::POST)
    } else if s == "PUT"@ {
        Some(Method::PUT)
    } else if s == "DELETE"@ {
        Some(Method::DELETE)
    } else if s == "OPTIONS"@ {
        Some(Method::OPTIONS)
    } else if s == "HEAD"@ {
        Some(Method::HEAD)
    } else if s == "PATCH"@ {
        Some(Method::PATCH)
    } else if s == "TRACE"@ {
        Some(Method::TRACE)
    } else {
        None
    }
}

/// The method for an upper-cased method name: a named method, or `CUSTOM`
/// holding the name.
pub fn method_from_upper(s: &str) -> (r: Method)
    ensures
        match named_method(s@) {
            Some(m) => r == m,
            None => r matches Method::CUSTOM(x) && x@ == s@,
        },
{
    if str_eq(s, "GET") {
        Method::GET
    } else if str_eq(s, "POST") {
        Method::POST
    } else if str_eq(s, "PUT") {
        Method::PUT
    } else if str_eq(s, "DELETE") {
        Method::DELETE
    } else if str_eq(s, "OPTIONS") {
        Method::OPTIONS
    } else if str_eq(s, "HEAD") {
        Method::HEAD
    } else if str_eq(s, "PATCH") {
        Method::PATCH
    } else if str_eq(s, "TRACE") {
        Method::TRACE
    } else {
        Method::CUSTOM(String::from_str(s))
    }
}

/// The space-separated words of the request.
pub open spec fn words(raw: Seq<char>) -> Seq<Seq<char>> {
    split_char(raw, ' ')
}

/// Get the request method of a raw HTTP request: the first word, upper-cased.
pub fn get_request_method(raw_data: String) -> (r: Method)
    ensures
        ({
            let up = str_to_uppercase(words(raw_data@)[0]);
            match named_method(up) {
                Some(m) => r == m,
                None => r matches Method::CUSTOM(x) && x@ == up,
            }
        }),
{
    let v = chars_of(raw_data.as_str());
    let ws = split_chars(v.as_slice(), ' ');
    proof {
        crate::text::lemma_split_char_nonempty(v@, ' ');
    }
    assert(ws.deep_view()[0] == ws@[0]@);
    let up = to_uppercase(ws[0].as_str());
    method_from_upper(up.as_str())
}

/// `s` with every run of slashes reduced to one slash.
pub open spec fn collapse_slashes(s: Seq<char>) -> Seq<char>
    decreases s.len(),
{
    if s.len() == 0 {
        Seq::empty()
    } else {
        let p = collapse_slashes(s.drop_last());
        if s.last() != '/' {
            p.push(s.last())
        } else if p.len() > 0 && p.last() == '/' {
            p
        } else {
            p.push('/')
        }
    }
}

/// The path of a request line: the second word up to its first `?`, with
/// runs of slashes collapsed and one trailing slash removed.
pub open spec fn request_path_spec(raw: Seq<char>) -> Seq<char> {
    let w = words(raw);
    let target = if w.len() > 1 {
        w[1]
    } else {
        Seq::empty()
    };
    let c = collapse_slashes(split_char(target, '?')[0]);
    if c.len() > 0 && c.last() == '/' {
        c.drop_last()
    } else {
        c
    }
}

/// Get the path of a raw HTTP request.
pub fn get_request_path(raw_data: String) -> (r: String)
    ensures
        r@ == request_path_spec(raw_data@),
{
    let v = chars_of(raw_data.as_str());
    let ws = split_chars(v.as_slice(), ' ');
    let target: Vec<char> = if ws.len() > 1 {
        assert(ws.deep_view()[1] == ws@[1]@);
        chars_of(ws[1].as_str())
    } else {
        Vec::new()
    };
    let qs = split_chars(target.as_slice(), '?');
    proof {
        crate::text::lemma_split_char_nonempty(target@, '?');
    }
    assert(qs.deep_view()[0] == qs@[0]@);
    let p = chars_of(qs[0].as_str());
    let mut out = String::new();
    let mut i: usize = 0;
    while i < p.len()
        invariant
            i <= p@.len(),
            out@ == collapse_slashes(p@.take(i as int)),
        decreases p.len() - i,
    {
        let c = p[i];
        assert(p@.take(i + 1).drop_last() == p@.take(i as int));
        assert(p@.take(i + 1).last() == c);
        if c != '/' {
            push_char(&mut out, c);
        } else {
            let ov = chars_of(out.as_str());
            if !(ov.len() > 0 && ov[ov.len() - 1] == '/') {
                push_char(&mut out, '/');
            }
        }
        i = i + 1;
    }
    assert(p@.take(p@.len() as int) == p@);
    let ov = chars_of(out.as_str());
    if ov.len() > 0 && ov[ov.len() - 1] == '/' {
        crate::text::string_from_range(ov.as_slice(), 0, ov.len() - 1)
    } else {
        out
    }
}

/// The query of a request line: the pairs of the text after the first `?`
/// of the second word (up to a second `?`), or none.
pub open spec fn request_query_spec(raw: Seq<char>) -> Seq<(Seq<char>, Seq<char>)> {
    let w = words(raw);
    if w.len() <= 1 {
        Seq::empty()
    } else {
        let parts = split_char(w[1], '?');
        if parts.len() <= 1 {
            Seq::empty()
        } else {
            from_body_spec(parts[1])
        }
    }
}

// Get The Query Data of a raw HTTP request.
pub fn get_request_query(raw_data: String) -> (r: Query)
    ensures
        r@ == request_query_spec(raw_data@),
{
    let v = chars_of(raw_data.as_str());
    let ws = split_chars(v.as_slice(), ' ');
    if ws.len() <= 1 {
        return Query::new_empty();
    }
    assert(ws.deep_view()[1] == ws@[1]@);
    let target = chars_of(ws[1].as_str());
    let parts = split_chars(target.as_slice(), '?');
    if parts.len() <= 1 {
        return Query::new_empty();
    }
    assert(parts.deep_view()[1] == parts@[1]@);
    Query::from_body(parts[1].as_str())
}

/// The parts of a request separated by blank lines.
pub open spec fn sections(raw: Seq<char>) -> Seq<Seq<char>> {
    split_str(raw, "\r\n\r\n"@)
}

/// The body of a request: the second blank-line separated part, trimmed of
/// NUL characters, or nothing when there is no blank line.
pub open spec fn request_body_spec(raw: Seq<char>) -> Seq<char> {
    let s = sections(raw);
    if s.len() >= 2 {
        trim_spec(s[1], CharClass::Exactly('\0'))
    } else {
        Seq::empty()
    }
}

fn sections_of(raw: &str) -> (r: Vec<String>)
    ensures
        r.deep_view() == sections(raw@),
        r@.len() >= 1,
{
    let v = chars_of(raw);
    let sep = chars_of("\r\n\r\n");
    proof {
        reveal_strlit("\r\n\r\n");
    }
    split_chars_by(v.as_slice(), sep.as_slice())
}

fn lines_of(s: &str) -> (r: Vec<String>)
    ensures
        r.deep_view() == split_str(s@, "\r\n"@),
{
    let v = chars_of(s);
    let sep = chars_of("\r\n");
    proof {
        reveal_strlit("\r\n");
    }
    split_chars_by(v.as_slice(), sep.as_slice())
}

/// Get the body of a raw HTTP request.
pub fn get_request_body(raw_data: String) -> (r: String)
    ensures
        r@ == request_body_spec(raw_data@),
{
    let s = sections_of(raw_data.as_str());
    if s.len() >= 2 {
        assert(s.deep_view()[1] == s@[1]@);
        trim_class(s[1].as_str(), CharClass::Exactly('\0'))
    } else {
        String::new()
    }
}

/// The header lines of a request: the lines of its first blank-line
/// separated part.
pub open spec fn header_lines(raw: Seq<char>) -> Seq<Seq<char>> {
    split_str(sections(raw)[0], "\r\n"@)
}

/// The headers of the lines that parse as headers, in order, after
/// trimming NUL characters.
pub open spec fn headers_of_lines(lines: Seq<Seq<char>>) -> Seq<(Seq<char>, Seq<char>)>
    decreases lines.len(),
{
    if lines.len() == 0 {
        Seq::empty()
    } else {
        let prev = headers_of_lines(lines.drop_last());
        match header_parse_spec(trim_spec(lines.last(), CharClass::Exactly('\0'))) {
            Some(h) => prev.push(h),
            None => prev,
        }
    }
}

pub open spec fn headers_view(v: Seq<Header>) -> Seq<(Seq<char>, Seq<char>)> {
    v.map_values(|h: Header| (h.name@, h.value@))
}

/// Get the headers of a raw HTTP request.
pub fn get_request_headers(raw_data: String) -> (r: Vec<Header>)
    ensures
        headers_view(r@) == headers_of_lines(header_lines(raw_data@)),
{
    let s = sections_of(raw_data.as_str());
    assert(s.deep_view()[0] == s@[0]@);
    let lines = lines_of(s[0].as_str());
    let mut out: Vec<Header> = Vec::new();
    let mut i: usize = 0;
    while i < lines.len()
        invariant
            i <= lines@.len(),
            headers_view(out@) == headers_of_lines(lines.deep_view().take(i as int)),
        decreases lines.len() - i,
    {
        assert(lines.deep_view().take(i + 1).drop_last() == lines.deep_view().take(i as int));
        assert(lines.deep_view()[i as int] == lines@[i as int]@);
        let t = trim_class(lines[i].as_str(), CharClass::Exactly('\0'));
        match Header::from_string(t.as_str()) {
            Ok(h) => {
                let ghost before = out@;
                out.push(h);
                assert(headers_view(out@) =~= headers_view(before).push((h.name@, h.value@)));
            },
            Err(_) => {},
        }
        i = i + 1;
    }
    assert(lines.deep_view().take(lines@.len() as int) == lines.deep_view());
    out
}

/// The cookies of the first header line that starts with `Cookie:` and
/// parses as a cookie header; none if there is no such line.
pub open spec fn cookies_of_lines(lines: Seq<Seq<char>>) -> Seq<(Seq<char>, Seq<char>)>
    decreases lines.len(),
{
    if lines.len() == 0 {
        Seq::empty()
    } else if has_prefix(lines[0], "Cookie:"@) && cookies_spec(
        trim_spec(lines[0], CharClass::Exactly('\0')),
    ) is Some {
        cookies_spec(trim_spec(lines[0], CharClass::Exactly('\0')))->0
    } else {
        cookies_of_lines(lines.drop_first())
    }
}

/// Get Cookies of a raw HTTP request.
pub fn get_request_cookies(raw_data: String) -> (r: Vec<Cookie>)
    ensures
        cookies_view(r@) == cookies_of_lines(header_lines(raw_data@)),
{
    let s = sections_of(raw_data.as_str());
    assert(s.deep_view()[0] == s@[0]@);
    let lines = lines_of(s[0].as_str());
    let ghost all = lines.deep_view();
    let mut i: usize = 0;
    assert(all.skip(0) == all);
    while i < lines.len()
        invariant
            i <= lines@.len(),
            all == lines.deep_view(),
            all == header_lines(raw_data@),
            cookies_of_lines(all) == cookies_of_lines(all.skip(i as int)),
        decreases lines.len() - i,
    {
        assert(all.skip(i as int)[0] == lines@[i as int]@);
        assert(all.skip(i as int).drop_first() == all.skip(i + 1));
        if starts_with(lines[i].as_str(), "Cookie:") {
            let t = trim_class(lines[i].as_str(), CharClass::Exactly('\0'));
            match Cookie::from_string(t.as_str()) {
                Some(c) => {
                    return c;
                },
                None => {},
            }
        }
        i = i + 1;
    }
    assert(all.skip(all.len() as int) =~= Seq::<Seq<char>>::empty());
    let r: Vec<Cookie> = Vec::new();
    assert(cookies_view(r@) =~= Seq::<(Seq<char>, Seq<char>)>::empty());
    r
}

/// Get the byte size of the headers of a raw HTTP request: the UTF-8 length
/// of the text before the first blank line, plus four for the blank line.
pub fn get_header_size(raw_data: String) -> (r: usize)
    requires
        encode_utf8(sections(raw_data@)[0]).len() + 4 <= usize::MAX,
    ensures
        r == encode_utf8(sections(raw_data@)[0]).len() + 4,
{
    let s = sections_of(raw_data.as_str());
    assert(s.deep_view()[0] == s@[0]@);
    s[0].as_str().len() + 4
}

} // verus!
