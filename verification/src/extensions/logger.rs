//! The lines the request logger writes.
use vstd::prelude::*;
use vstd::string::StringExecFns;

use crate::header::Header;
use crate::http::method::method_name;
use crate::http::query::{query_text, Query};
use crate::internal::http::{from_utf8_lossy, utf8_lossy};
use crate::request::Request;
use crate::text::{chars_of, push_char, push_str, string_from_range};

verus! {

/// How much a log line says.
#[derive(Debug, Clone, Copy, PartialEq, Eq, Structural)]
pub enum Level {
    /// The address, method, path, query, headers and body.
    Debug,
    /// The address, method, path and query.
    Info,
}

/// A path as logged: `/` for the empty path.
pub open spec fn logged_path(p: Seq<char>) -> Seq<char> {
    if p.len() == 0 {
        "/"@
    } else {
        p
    }
}

/// Items joined as `a: b, ` and the last separator removed.
pub open spec fn pairs_listed(ps: Seq<(Seq<char>, Seq<char>)>) -> Seq<char>
    decreases ps.len(),
{
    if ps.len() == 0 {
        Seq::empty()
    } else {
        pairs_listed(ps.drop_last()) + ps.last().0 + ": "@ + ps.last().1 + ", "@
    }
}

/// A list without its last two characters, if it has two.
pub open spec fn trimmed_list(s: Seq<char>) -> Seq<char> {
    if s.len() >= 2 {
        s.take(s.len() - 2)
    } else {
        s
    }
}

/// A text with each newline written as `\n`.
pub open spec fn escape_newlines(s: Seq<char>) -> Seq<char>
    decreases s.len(),
{
    if s.len() == 0 {
        Seq::empty()
    } else if s.last() == '\n' {
        escape_newlines(s.drop_last()) + "\\n"@
    } else {
        escape_newlines(s.drop_last()).push(s.last())
    }
}

/// Pairs of strings as pairs of texts.
pub open spec fn pair_views(v: Seq<(String, String)>) -> Seq<(Seq<char>, Seq<char>)> {
    v.map_values(|p: (String, String)| (p.0@, p.1@))
}

/// The headers of a request as name-value pairs.
pub open spec fn header_pairs(hs: Seq<Header>) -> Seq<(Seq<char>, Seq<char>)> {
    hs.map_values(|h: Header| (h.name@, h.value@))
}

/// The line logged for a request from the address `ip`: at `Info`,
/// `[ip] METHOD path?query`; at `Debug`, `[ip] METHOD path [query] (headers) {body}`.
pub open spec fn log_line_spec(level: Level, ip: Seq<char>, req: Request) -> Seq<char> {
    match level {
        Level::Info => "["@ + ip + "] "@ + method_name(req.method) + " "@ + logged_path(req.path@) + query_text(
            req.query@,
        ),
        Level::Debug => "["@ + ip + "] "@ + method_name(req.method) + " "@ + logged_path(req.path@) + " ["@
            + trimmed_list(pairs_listed(req.query@)) + "] ("@ + trimmed_list(pairs_listed(header_pairs(req.headers@)))
            + ") {"@ + escape_newlines(utf8_lossy(req.body@)) + "}"@,
    }
}

fn list_pairs(ps: &Vec<(String, String)>) -> (r: String)
    ensures
        r@ == trimmed_list(pairs_listed(pair_views(ps@))),
{
    let ghost v = pair_views(ps@);
    let mut out = String::new();
    let mut i: usize = 0;
    assert(v.take(0) =~= Seq::<(Seq<char>, Seq<char>)>::empty());
    while i < ps.len()
        invariant
            i <= ps@.len(),
            v == pair_views(ps@),
            out@ == pairs_listed(v.take(i as int)),
        decreases ps.len() - i,
    {
        assert(v.take(i + 1).drop_last() == v.take(i as int));
        assert(v.take(i + 1).last() == (ps@[i as int].0@, ps@[i as int].1@));
        push_str(&mut out, ps[i].0.as_str());
        push_str(&mut out, ": ");
        push_str(&mut out, ps[i].1.as_str());
        push_str(&mut out, ", ");
        i = i + 1;
    }
    assert(v.take(v.len() as int) == v);
    let cv = chars_of(out.as_str());
    if cv.len() >= 2 {
        string_from_range(cv.as_slice(), 0, cv.len() - 2)
    } else {
        out
    }
}

fn escape(s: &str) -> (r: String)
    ensures
        r@ == escape_newlines(s@),
{
    let v = chars_of(s);
    let mut out = String::new();
    let mut i: usize = 0;
    while i < v.len()
        invariant
            i <= v@.len(),
            out@ == escape_newlines(v@.take(i as int)),
        decreases v.len() - i,
    {
        assert(v@.take(i + 1).drop_last() == v@.take(i as int));
        assert(v@.take(i + 1).last() == v@[i as int]);
        if v[i] == '\n' {
            push_str(&mut out, "\\n");
        } else {
            push_char(&mut out, v[i]);
        }
        i = i + 1;
    }
    assert(v@.take(v@.len() as int) == v@);
    out
}

/// The line the logger writes for a request from the address `ip`.
pub fn log_line(level: Level, ip: &str, req: &Request) -> (r: String)
    ensures
        r@ == log_line_spec(level, ip@, *req),
{
    let mut out = String::from_str("[");
    push_str(&mut out, ip);
    push_str(&mut out, "] ");
    push_str(&mut out, req.method.as_str());
    push_str(&mut out, " ");
    if req.path.as_str().is_empty() {
        push_str(&mut out, "/");
    } else {
        push_str(&mut out, req.path.as_str());
    }
    match level {
        Level::Info => {
            push_str(&mut out, req.query.to_string().as_str());
        },
        Level::Debug => {
            let mut qs: Vec<(String, String)> = Vec::new();
            let mut i: usize = 0;
            while i < req.query.0.len()
                invariant
                    i <= req.query@.len(),
                    pair_views(qs@) == req.query@.take(i as int),
                decreases req.query.0.len() - i,
            {
                let ghost before = qs@;
                qs.push((req.query.0[i][0].clone(), req.query.0[i][1].clone()));
                assert(req.query@.take(i + 1) =~= req.query@.take(i as int).push(req.query@[i as int]));
                assert(pair_views(qs@) =~= pair_views(before).push(req.query@[i as int]));
                i = i + 1;
            }
            assert(req.query@.take(req.query@.len() as int) == req.query@);
            let mut hs: Vec<(String, String)> = Vec::new();
            let mut j: usize = 0;
            while j < req.headers.len()
                invariant
                    j <= req.headers@.len(),
                    pair_views(hs@) == header_pairs(req.headers@.take(j as int)),
                decreases req.headers.len() - j,
            {
                let ghost before = hs@;
                hs.push((req.headers[j].name.clone(), req.headers[j].value.clone()));
                assert(req.headers@.take(j + 1) =~= req.headers@.take(j as int).push(req.headers@[j as int]));
                assert(pair_views(hs@) =~= pair_views(before).push((req.headers@[j as int].name@, req.headers@[j as int].value@)));
                assert(header_pairs(req.headers@.take(j + 1)) =~= header_pairs(req.headers@.take(j as int)).push((req.headers@[j as int].name@, req.headers@[j as int].value@)));
                j = j + 1;
            }
            assert(req.headers@.take(req.headers@.len() as int) == req.headers@);
            push_str(&mut out, " [");
            push_str(&mut out, list_pairs(&qs).as_str());
            push_str(&mut out, "] (");
            push_str(&mut out, list_pairs(&hs).as_str());
            push_str(&mut out, ") {");
            let body = from_utf8_lossy(req.body.as_slice());
            push_str(&mut out, escape(body.as_str()).as_str());
            push_str(&mut out, "}");
        },
    }
    proof {
        assert(out@ =~= log_line_spec(level, ip@, *req));
    }
    out
}

} // verus!
