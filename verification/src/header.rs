//! HTTP headers.
use vstd::prelude::*;
use vstd::string::StringExecFns;

use crate::error::{Error, ParseError};
use crate::text::{
    chars_of, count_leading, count_trailing, find_from, lemma_find_char, push_str, split_once, split_once_char, str_eq,
    trim_class, trim_end_spec, trim_spec, trim_start_spec, CharClass,
};

verus! {

/// Http header.
/// Has a name and a value.
#[derive(Debug, Hash, Clone)]
pub struct Header {
    /// Name of the Header
    pub name: String,
    /// Value of the Header
    pub value: String,
}

/// The text of a header: `name: value`.
pub open spec fn header_text(h: Header) -> Seq<char> {
    h.name@ + ": "@ + h.value@
}

/// What [`Header::from_string`] makes of `s`: a header when `s` holds a `:`,
/// with the text before the first `:` and the text after it, both trimmed of
/// whitespace.
pub open spec fn header_parse_spec(s: Seq<char>) -> Option<(Seq<char>, Seq<char>)> {
    let parts = split_once_char(s, ':');
    if parts.len() == 2 {
        Some((trim_spec(parts[0], CharClass::Whitespace), trim_spec(parts[1], CharClass::Whitespace)))
    } else {
        None
    }
}

impl Header {
    /// Make a new header from a name and a value.
    pub fn new(name: &str, value: &str) -> (r: Header)
        ensures
            r.name@ == name@,
            r.value@ == value@,
    {
        Header { name: String::from_str(name), value: String::from_str(value) }
    }

    /// Convert a string to a header.
    /// String must be in the format `name: value`, or an error will be returned.
    pub fn from_string(header: &str) -> (r: Result<Header, Error>)
        ensures
            header_parse_spec(header@) is None <==> r is Err,
            r matches Err(e) ==> e == Error::Parse(ParseError::InvalidHeader),
            r matches Ok(h) ==> header_parse_spec(header@) == Some((h.name@, h.value@)),
    {
        let v = chars_of(header);
        let parts = split_once(v.as_slice(), ':');
        if parts.len() != 2 {
            return Err(Error::Parse(ParseError::InvalidHeader));
        }
        let name = trim_class(parts[0].as_str(), CharClass::Whitespace);
        let value = trim_class(parts[1].as_str(), CharClass::Whitespace);
        Ok(Header { name, value })
    }

    /// A copy of the header.
    pub fn duplicate(&self) -> (r: Header)
        ensures
            r == *self,
    {
        Header { name: self.name.clone(), value: self.value.clone() }
    }

    /// Convert a header to a string, in format `name: value`.
    pub fn to_string(&self) -> (r: String)
        ensures
            r@ == header_text(*self),
    {
        let mut s = self.name.clone();
        push_str(&mut s, ": ");
        push_str(&mut s, self.value.as_str());
        s
    }
}

impl PartialEq for Header {
    fn eq(&self, other: &Self) -> (r: bool) {
        str_eq(self.name.as_str(), other.name.as_str()) && str_eq(
            self.value.as_str(),
            other.value.as_str(),
        )
    }
}

impl vstd::std_specs::cmp::PartialEqSpecImpl for Header {
    open spec fn obeys_eq_spec() -> bool {
        true
    }

    open spec fn eq_spec(&self, other: &Self) -> bool {
        self.name@ == other.name@ && self.value@ == other.value@
    }
}

/// The texts of the headers `hs`, each followed by `\r\n`.
pub open spec fn headers_lines(hs: Seq<Header>) -> Seq<char>
    decreases hs.len(),
{
    if hs.len() == 0 {
        Seq::empty()
    } else {
        headers_lines(hs.drop_last()) + header_text(hs.last()) + "\r\n"@
    }
}

/// Stringify a list of headers: each header is `name: value`, and they are
/// separated by `\r\n`. The list must not be empty.
pub open spec fn headers_text(hs: Seq<Header>) -> Seq<char> {
    headers_lines(hs).take(headers_lines(hs).len() - 2)
}

proof fn lemma_headers_lines_len(hs: Seq<Header>)
    requires
        hs.len() > 0,
    ensures
        headers_lines(hs).len() >= 2,
{
    reveal_strlit("\r\n");
}

/// Stringify a Vec of headers.
/// Each header is in the format `name: value` and separated by a carriage
/// return and newline (`\r\n`).
pub fn headers_to_string(headers: &[Header]) -> (r: String)
    requires
        headers@.len() > 0,
    ensures
        r@ == headers_text(headers@),
{
    let mut out = String::new();
    let mut i: usize = 0;
    while i < headers.len()
        invariant
            i <= headers@.len(),
            out@ == headers_lines(headers@.take(i as int)),
        decreases headers.len() - i,
    {
        let line = headers[i].to_string();
        push_str(&mut out, line.as_str());
        push_str(&mut out, "\r\n");
        assert(headers@.take(i + 1).drop_last() == headers@.take(i as int));
        i = i + 1;
    }
    assert(headers@.take(headers@.len() as int) == headers@);
    proof {
        lemma_headers_lines_len(headers@);
    }
    let v = chars_of(out.as_str());
    crate::text::string_from_range(v.as_slice(), 0, v.len() - 2)
}

proof fn lemma_untrimmed(v: Seq<char>)
    requires
        trim_spec(v, CharClass::Whitespace) == v,
    ensures
        count_leading(v, CharClass::Whitespace) == 0,
        count_trailing(v, CharClass::Whitespace) == 0,
{
    let k = CharClass::Whitespace;
    lemma_leading_bound(v, k);
    let t = trim_start_spec(v, k);
    lemma_trailing_bound(t, k);
    assert(trim_end_spec(t, k).len() == t.len() - count_trailing(t, k));
    assert(t =~= v);
}

proof fn lemma_leading_bound(s: Seq<char>, k: CharClass)
    ensures
        count_leading(s, k) <= s.len(),
    decreases s.len(),
{
    if s.len() > 0 && crate::text::in_class(k, s[0]) {
        lemma_leading_bound(s.drop_first(), k);
    }
}

proof fn lemma_trailing_bound(s: Seq<char>, k: CharClass)
    ensures
        count_trailing(s, k) <= s.len(),
    decreases s.len(),
{
    if s.len() > 0 && crate::text::in_class(k, s.last()) {
        lemma_trailing_bound(s.drop_last(), k);
    }
}

/// A header written as text and read back is the same header, when its name
/// holds no `:` and neither its name nor its value has whitespace at its ends.
pub proof fn lemma_header_round_trip(h: Header)
    requires
        !h.name@.contains(':'),
        trim_spec(h.name@, CharClass::Whitespace) == h.name@,
        trim_spec(h.value@, CharClass::Whitespace) == h.value@,
    ensures
        header_parse_spec(header_text(h)) == Some((h.name@, h.value@)),
{
    let k = CharClass::Whitespace;
    let n = h.name@;
    let v = h.value@;
    let s = header_text(h);
    reveal_strlit(": ");
    assert(s =~= n + seq![':', ' '] + v);
    assert forall|j: int| 0 <= j < n.len() implies s[j] != ':' by {
        assert(s[j] == n[j]);
        if n[j] == ':' {
            assert(n.contains(':'));
        }
    }
    lemma_find_char(s, ':', 0, n.len() as int);
    assert(s.take(n.len() as int) =~= n);
    let rest = s.skip(n.len() as int + 1);
    assert(rest =~= seq![' '] + v);
    lemma_untrimmed(v);
    assert(rest.drop_first() =~= v);
    assert(count_leading(rest, k) == 1);
    assert(trim_start_spec(rest, k) =~= v);
    assert(trim_end_spec(v, k) =~= v);
}

} // verus!
