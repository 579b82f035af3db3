//! Working with raw HTTP data.
use vstd::prelude::*;
use vstd::utf8::{decode_utf8, valid_utf8};

use crate::error::{Error, ParseError};
use crate::http::method::{method_of_upper, Method};
use crate::http::query::{from_body_spec, pairs_view, Query};
use crate::text::{chars_of, is_whitespace, is_ws, push_char, str_to_uppercase, string_from_range};

verus! {

/// What `String::from_utf8_lossy` makes of bytes.
pub uninterp spec fn utf8_lossy(b: Seq<u8>) -> Seq<char>;

/// `String::from_utf8_lossy`: the text of the bytes, with invalid sequences
/// replaced; for valid UTF-8 it is the decoded text. What it makes of an
/// invalid sequence is not stated here.
#[verifier::external_body]
pub(crate) fn from_utf8_lossy(bytes: &[u8]) -> (r: String)
    ensures
        r@ == utf8_lossy(bytes@),
        valid_utf8(bytes@) ==> r@ == decode_utf8(bytes@),
{
    String::from_utf8_lossy(bytes).to_string()
}

/// The words of a text: its maximal runs of characters that are not whitespace.
pub open spec fn ws_words(s: Seq<char>) -> Seq<Seq<char>>
    decreases s.len(),
{
    if s.len() == 0 {
        Seq::empty()
    } else {
        let prev = ws_words(s.drop_last());
        let c = s.last();
        if is_ws(c) {
            prev
        } else if s.len() >= 2 && !is_ws(s[s.len() - 2]) && prev.len() > 0 {
            prev.update(prev.len() - 1, prev.last().push(c))
        } else {
            prev.push(seq![c])
        }
    }
}

/// The words of a text.
pub fn split_whitespace(s: &str) -> (r: Vec<String>)
    ensures
        r@.map_values(|x: String| x@) == ws_words(s@),
{
    let v = chars_of(s);
    let mut out: Vec<String> = Vec::new();
    let mut i: usize = 0;
    assert(out@.map_values(|x: String| x@) =~= ws_words(v@.take(0)));
    while i < v.len()
        invariant
            i <= v@.len(),
            v@ == s@,
            out@.map_values(|x: String| x@) == ws_words(v@.take(i as int)),
        decreases v.len() - i,
    {
        let c = v[i];
        let ghost t = v@.take(i + 1);
        assert(t.drop_last() == v@.take(i as int));
        assert(t.last() == c);
        let ghost before = out@;
        if is_whitespace(c) {
        } else if i >= 1 && !is_whitespace(v[i - 1]) && out.len() > 0 {
            assert(t[t.len() - 2] == v@[i - 1]);
            let last = out.len() - 1;
            let mut w = out[last].clone();
            push_char(&mut w, c);
            out.set(last, w);
            assert(out@.map_values(|x: String| x@) =~= before.map_values(|x: String| x@).update(
                last as int,
                before.map_values(|x: String| x@).last().push(c),
            ));
        } else {
            proof {
                if i >= 1 {
                    assert(t[t.len() - 2] == v@[i - 1]);
                }
            }
            let mut w = String::new();
            push_char(&mut w, c);
            out.push(w);
            assert(out@.map_values(|x: String| x@) =~= before.map_values(|x: String| x@).push(seq![c]));
        }
        i = i + 1;
    }
    assert(v@.take(v@.len() as int) == v@);
    out
}

/// A separator in a request target.
pub open spec fn is_sep(c: char) -> bool {
    c == '/' || c == '\\'
}

/// The part of a request target before its first `?`.
pub open spec fn before_query(s: Seq<char>) -> Seq<char>
    decreases s.len(),
{
    if s.len() == 0 {
        s
    } else if s[0] == '?' {
        Seq::empty()
    } else {
        seq![s[0]] + before_query(s.drop_first())
    }
}

/// The part of a request target after its first `?`, empty if it has none.
pub open spec fn after_query(s: Seq<char>) -> Seq<char>
    decreases s.len(),
{
    if s.len() == 0 {
        s
    } else if s[0] == '?' {
        s.drop_first()
    } else {
        after_query(s.drop_first())
    }
}

/// A path with slashes and backslashes written as slashes, runs of them made one.
pub open spec fn collapse_seps(s: Seq<char>) -> Seq<char>
    decreases s.len(),
{
    if s.len() == 0 {
        Seq::empty()
    } else {
        let p = collapse_seps(s.drop_last());
        if !is_sep(s.last()) {
            p.push(s.last())
        } else if p.len() > 0 && p.last() == '/' {
            p
        } else {
            p.push('/')
        }
    }
}

/// What a request line gives: its first word as a method, its second as the
/// target (a path and a query), its third as the version.
pub open spec fn request_line_spec(line: Seq<char>) -> Result<(Method, Seq<char>, Seq<(Seq<char>, Seq<char>)>, Seq<char>), ParseError> {
    let w = ws_words(line);
    if w.len() == 0 {
        Err(ParseError::NoMethod)
    } else {
        match method_of_upper(str_to_uppercase(w[0])) {
            Err(_) => Err(ParseError::InvalidMethod),
            Ok(m) => if w.len() < 2 {
                Err(ParseError::NoPath)
            } else if w.len() < 3 {
                Err(ParseError::NoVersion)
            } else {
                Ok((m, collapse_seps(before_query(w[1])), from_body_spec(after_query(w[1])), w[2]))
            },
        }
    }
}

proof fn lemma_query_split(s: Seq<char>, i: int)
    requires
        0 <= i <= s.len(),
        forall|k: int| 0 <= k < i ==> s[k] != '?',
    ensures
        before_query(s) == s.take(i) + before_query(s.skip(i)),
        after_query(s) == after_query(s.skip(i)),
    decreases i,
{
    if i > 0 {
        lemma_query_split(s.drop_first(), i - 1);
        assert(s.drop_first().take(i - 1) =~= s.take(i).drop_first());
        assert(s.drop_first().skip(i - 1) =~= s.skip(i));
        assert(s.take(i) =~= seq![s[0]] + s.take(i).drop_first());
    } else {
        assert(s.skip(0) =~= s);
        assert(s.take(0) + before_query(s) =~= before_query(s));
    }
}

/// Parse the request line of a request: method, path, query and version.
pub fn parse_request_line(bytes: &[u8]) -> (r: Result<(Method, String, Query, String), Error>)
    ensures
        match request_line_spec(utf8_lossy(bytes@)) {
            Err(e) => r matches Err(Error::Parse(pe)) && pe == e,
            Ok((m, p, q, v)) => r matches Ok((rm, rp, rq, rv)) && rm == m && rp@ == p && rq@ == q && rv@ == v,
        },
{
    let request_line = from_utf8_lossy(bytes);
    let parts = split_whitespace(request_line.as_str());
    let ghost w = ws_words(request_line@);
    if parts.len() == 0 {
        return Err(Error::Parse(ParseError::NoMethod));
    }
    assert(w[0] == parts@[0]@);
    let method = match Method::from_name(parts[0].as_str()) {
        Ok(m) => m,
        Err(_) => return Err(Error::Parse(ParseError::InvalidMethod)),
    };
    if parts.len() < 2 {
        return Err(Error::Parse(ParseError::NoPath));
    }
    assert(w[1] == parts@[1]@);
    let raw_path = chars_of(parts[1].as_str());
    let ghost t = raw_path@;
    let mut qi: usize = 0;
    while qi < raw_path.len() && raw_path[qi] != '?'
        invariant
            qi <= t.len(),
            t == raw_path@,
            forall|k: int| 0 <= k < qi ==> t[k] != '?',
        decreases raw_path.len() - qi,
    {
        qi = qi + 1;
    }
    let mut final_path = String::new();
    let mut last_is_slash = false;
    let mut i: usize = 0;
    assert(t.take(0) =~= Seq::<char>::empty());
    while i < qi
        invariant
            i <= qi <= t.len(),
            t == raw_path@,
            final_path@ == collapse_seps(t.take(i as int)),
            last_is_slash == (final_path@.len() > 0 && final_path@.last() == '/'),
        decreases qi - i,
    {
        let c = raw_path[i];
        assert(t.take(i + 1).drop_last() == t.take(i as int));
        assert(t.take(i + 1).last() == c);
        if c == '/' || c == '\\' {
            if !last_is_slash {
                last_is_slash = true;
                push_char(&mut final_path, '/');
            }
        } else {
            last_is_slash = false;
            push_char(&mut final_path, c);
        }
        i = i + 1;
    }
    proof {
        lemma_query_split(t, qi as int);
        if qi < t.len() {
            assert(before_query(t.skip(qi as int)) =~= Seq::<char>::empty());
            assert(t.take(qi as int) + Seq::<char>::empty() =~= t.take(qi as int));
            assert(after_query(t.skip(qi as int)) =~= t.skip(qi + 1));
        } else {
            assert(t.skip(qi as int) =~= Seq::<char>::empty());
            assert(t.take(qi as int) =~= t);
            assert(t + Seq::<char>::empty() =~= t);
        }
    }
    let final_query = if qi < raw_path.len() {
        string_from_range(raw_path.as_slice(), qi + 1, raw_path.len())
    } else {
        String::new()
    };
    proof {
        if qi < t.len() {
            assert(t.subrange(qi + 1, t.len() as int) =~= t.skip(qi + 1));
        }
    }
    let query = Query::from_body(final_query.as_str());
    if parts.len() < 3 {
        return Err(Error::Parse(ParseError::NoVersion));
    }
    assert(w[2] == parts@[2]@);
    let version = parts[2].clone();
    Ok((method, final_path, query, version))
}

} // verus!
