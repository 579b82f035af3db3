//! Cookies!
//! This module provides a simple interface for setting and receiving cookies.
use vstd::prelude::*;
use vstd::string::StringExecFns;

use crate::internal::encoding::url::{
    decode, decode_spec, encode_spec, is_latin1, lemma_decode_encode, lemma_encode_chars, url_safe,
};
use crate::text::{
    chars_of, push_decimal, push_str, split_chars_by, split_once, split_once_char, split_str,
    str_eq, strip_prefix, strip_prefix_spec, trim_class, trim_end_class, trim_end_spec,
    trim_spec, decimal, CharClass, count_leading, count_trailing, find_from, lemma_find_char,
    trim_start_spec,
};

verus! {

/// Represents a Cookie
#[derive(Debug, Clone, Hash)]
pub struct Cookie {
    /// Cookie Key
    pub name: String,
    /// Cookie Value
    pub value: String,
}

/// Represents a Set-Cookie header.
/// Has more information than a normal Cookie (e.g. max-age, domain, path, secure).
#[derive(Debug, Clone, Hash)]
pub struct SetCookie {
    /// Base Cookie
    pub cookie: Cookie,
    /// Cookie Max-Age.
    /// Number of seconds until the cookie expires. A zero or negative number will expire the cookie immediately.
    pub max_age: Option<u64>,
    /// Cookie Domain
    pub domain: Option<String>,
    /// Cookie Path where the cookie is valid
    pub path: Option<String>,
    /// Cookie is secure
    pub secure: bool,
}

/// The cookies of a `Cookie:` header, from its `"; "`-separated parts: a
/// part with a `=` gives a cookie whose name is the trimmed text before the
/// first `=` and whose value is the trimmed text after it without trailing
/// `;`, both url decoded; a part without `=` is ignored.
pub open spec fn cookie_pairs(parts: Seq<Seq<char>>) -> Seq<(Seq<char>, Seq<char>)>
    decreases parts.len(),
{
    if parts.len() == 0 {
        Seq::empty()
    } else {
        let kv = split_once_char(parts.last(), '=');
        if kv.len() == 2 {
            let name = decode_spec(trim_spec(kv[0], CharClass::Whitespace));
            let value = decode_spec(
                trim_end_spec(trim_spec(kv[1], CharClass::Whitespace), CharClass::Exactly(';')),
            );
            cookie_pairs(parts.drop_last()).push((name, value))
        } else {
            cookie_pairs(parts.drop_last())
        }
    }
}

/// What [`Cookie::from_string`] returns: `None` unless the text starts with
/// `Cookie:`; otherwise the cookies of the rest, trimmed and split at `"; "`.
pub open spec fn cookies_spec(s: Seq<char>) -> Option<Seq<(Seq<char>, Seq<char>)>> {
    match strip_prefix_spec(s, "Cookie:"@) {
        None => None,
        Some(rest) => Some(cookie_pairs(split_str(trim_spec(rest, CharClass::Whitespace), "; "@))),
    }
}

pub open spec fn cookies_view(v: Seq<Cookie>) -> Seq<(Seq<char>, Seq<char>)> {
    v.map_values(|c: Cookie| (c.name@, c.value@))
}

/// The text of a Set-Cookie header value before trailing whitespace is
/// trimmed: `name=value; ` then `Max-Age=..; `, `Domain=..; `, `Path=..; `
/// and `Secure; ` for the fields that are set.
pub open spec fn set_cookie_raw(c: SetCookie) -> Seq<char> {
    c.cookie.name@ + "="@ + c.cookie.value@ + "; "@ + (match c.max_age {
        Some(n) => "Max-Age="@ + decimal(n as nat) + "; "@,
        None => Seq::empty(),
    }) + (match c.domain {
        Some(d) => "Domain="@ + d@ + "; "@,
        None => Seq::empty(),
    }) + (match c.path {
        Some(p) => "Path="@ + p@ + "; "@,
        None => Seq::empty(),
    }) + (if c.secure {
        "Secure; "@
    } else {
        Seq::empty()
    })
}

/// What `Display` writes for a Set-Cookie: [`set_cookie_raw`] without
/// trailing whitespace.
pub open spec fn set_cookie_text(c: SetCookie) -> Seq<char> {
    trim_end_spec(set_cookie_raw(c), CharClass::Whitespace)
}

impl Cookie {
    /// Make a new Cookie from a name and a value.
    pub fn new(name: &str, value: &str) -> (r: Cookie)
        ensures
            r.name@ == name@,
            r.value@ == value@,
    {
        Cookie { name: String::from_str(name), value: String::from_str(value) }
    }

    /// Make a Vec of Cookies from a String.
    /// Intended for making Cookie Vec from HTTP Headers.
    /// Will only return None of the cookie string does not start with "Cookie:".
    /// If there are any invalid cookies, they will be ignored.
    pub fn from_string(cookie_string: &str) -> (r: Option<Vec<Cookie>>)
        ensures
            r is Some <==> cookies_spec(cookie_string@) is Some,
            r matches Some(v) ==> cookies_spec(cookie_string@) == Some(cookies_view(v@)),
    {
        let rest = match strip_prefix(cookie_string, "Cookie:") {
            Some(r) => r,
            None => return None,
        };
        let trimmed = trim_class(rest.as_str(), CharClass::Whitespace);
        let tv = chars_of(trimmed.as_str());
        let sep = chars_of("; ");
        proof {
            reveal_strlit("; ");
        }
        let parts = split_chars_by(tv.as_slice(), sep.as_slice());
        let mut out: Vec<Cookie> = Vec::new();
        let mut i: usize = 0;
        while i < parts.len()
            invariant
                i <= parts@.len(),
                cookies_view(out@) == cookie_pairs(parts.deep_view().take(i as int)),
            decreases parts.len() - i,
        {
            let pv = chars_of(parts[i].as_str());
            let kv = split_once(pv.as_slice(), '=');
            assert(parts.deep_view().take(i + 1).drop_last() == parts.deep_view().take(i as int));
            assert(parts.deep_view()[i as int] == parts@[i as int]@);
            if kv.len() == 2 {
                let name = trim_class(kv[0].as_str(), CharClass::Whitespace);
                let value = trim_class(kv[1].as_str(), CharClass::Whitespace);
                let value = trim_end_class(value.as_str(), CharClass::Exactly(';'));
                let name = decode(name.as_str());
                let value = decode(value.as_str());
                let ghost before = out@;
                out.push(Cookie { name, value });
                assert(cookies_view(out@) =~= cookies_view(before).push((name@, value@)));
            }
            i = i + 1;
        }
        assert(parts.deep_view().take(parts@.len() as int) == parts.deep_view());
        Some(out)
    }

    /// The text `Display` writes: `name=value`.
    pub fn to_string(&self) -> (r: String)
        ensures
            r@ == self.name@ + "="@ + self.value@,
    {
        let mut s = self.name.clone();
        push_str(&mut s, "=");
        push_str(&mut s, self.value.as_str());
        s
    }
}

impl PartialEq for Cookie {
    fn eq(&self, other: &Self) -> (r: bool) {
        str_eq(self.name.as_str(), other.name.as_str()) && str_eq(
            self.value.as_str(),
            other.value.as_str(),
        )
    }
}

impl vstd::std_specs::cmp::PartialEqSpecImpl for Cookie {
    open spec fn obeys_eq_spec() -> bool {
        true
    }

    open spec fn eq_spec(&self, other: &Self) -> bool {
        self.name@ == other.name@ && self.value@ == other.value@
    }
}

impl SetCookie {
    /// Make a new SetCookie from a name and a value.
    pub fn new(name: &str, value: &str) -> (r: SetCookie)
        ensures
            r.cookie.name@ == name@,
            r.cookie.value@ == value@,
            r.max_age is None,
            r.domain is None,
            r.path is None,
            !r.secure,
    {
        SetCookie {
            cookie: Cookie::new(name, value),
            max_age: None,
            domain: None,
            path: None,
            secure: false,
        }
    }

    /// Set the Max-Age field of a SetCookie.
    /// This is the number of seconds the cookie should be valid for.
    pub fn max_age(self, max_age: u64) -> (r: SetCookie)
        ensures
            r == (SetCookie { max_age: Some(max_age), ..self }),
    {
        SetCookie { max_age: Some(max_age), ..self }
    }

    /// Set the Domain field of a SetCookie.
    pub fn domain(self, domain: &str) -> (r: SetCookie)
        ensures
            r.domain matches Some(d) && d@ == domain@,
            r.cookie == self.cookie,
            r.max_age == self.max_age,
            r.path == self.path,
            r.secure == self.secure,
    {
        SetCookie { domain: Some(String::from_str(domain)), ..self }
    }

    /// Set the Path field of a SetCookie.
    pub fn path(self, path: &str) -> (r: SetCookie)
        ensures
            r.path matches Some(p) && p@ == path@,
            r.cookie == self.cookie,
            r.max_age == self.max_age,
            r.domain == self.domain,
            r.secure == self.secure,
    {
        SetCookie { path: Some(String::from_str(path)), ..self }
    }

    /// Set the Secure field of a SetCookie.
    pub fn secure(self, secure: bool) -> (r: SetCookie)
        ensures
            r == (SetCookie { secure, ..self }),
    {
        let mut new = self;
        new.secure = secure;
        new
    }

    /// The text `Display` writes, as in a `Set-Cookie` header.
    pub fn to_string(&self) -> (r: String)
        ensures
            r@ == set_cookie_text(*self),
    {
        let s = set_cookie_raw_string(self.cookie.name.as_str(), self.cookie.value.as_str(), self.max_age, &self.domain, &self.path, self.secure);
        proof {
            reveal_strlit("=");
            reveal_strlit("; ");
        }
        trim_end_class(s.as_str(), CharClass::Whitespace)
    }
}

/// The untrimmed Set-Cookie text shared by both cookie modules.
pub fn set_cookie_raw_string(
    name: &str,
    value: &str,
    max_age: Option<u64>,
    domain: &Option<String>,
    path: &Option<String>,
    secure: bool,
) -> (r: String)
    ensures
        r@ == name@ + "="@ + value@ + "; "@ + (match max_age {
            Some(n) => "Max-Age="@ + decimal(n as nat) + "; "@,
            None => Seq::empty(),
        }) + (match domain {
            Some(d) => "Domain="@ + d@ + "; "@,
            None => Seq::empty(),
        }) + (match path {
            Some(p) => "Path="@ + p@ + "; "@,
            None => Seq::empty(),
        }) + (if secure {
            "Secure; "@
        } else {
            Seq::empty()
        }),
{
    let mut s = String::from_str(name);
    push_str(&mut s, "=");
    push_str(&mut s, value);
    push_str(&mut s, "; ");
    let ghost a = s@;
    if let Some(n) = max_age {
        push_str(&mut s, "Max-Age=");
        push_decimal(&mut s, n);
        push_str(&mut s, "; ");
    }
    let ghost b = s@;
    if let Some(d) = domain {
        push_str(&mut s, "Domain=");
        push_str(&mut s, d.as_str());
        push_str(&mut s, "; ");
    }
    let ghost c = s@;
    if let Some(p) = path {
        push_str(&mut s, "Path=");
        push_str(&mut s, p.as_str());
        push_str(&mut s, "; ");
    }
    let ghost d = s@;
    if secure {
        push_str(&mut s, "Secure; ");
    }
    assert(s@ =~= name@ + "="@ + value@ + "; "@ + (match max_age {
        Some(n) => "Max-Age="@ + decimal(n as nat) + "; "@,
        None => Seq::empty(),
    }) + (match domain {
        Some(d) => "Domain="@ + d@ + "; "@,
        None => Seq::empty(),
    }) + (match path {
        Some(p) => "Path="@ + p@ + "; "@,
        None => Seq::empty(),
    }) + (if secure {
        "Secure; "@
    } else {
        Seq::empty()
    }));
    s
}

impl PartialEq for SetCookie {
    fn eq(&self, other: &Self) -> (r: bool) {
        let same_domain = match (&self.domain, &other.domain) {
            (Some(a), Some(b)) => str_eq(a.as_str(), b.as_str()),
            (None, None) => true,
            _ => false,
        };
        let same_path = match (&self.path, &other.path) {
            (Some(a), Some(b)) => str_eq(a.as_str(), b.as_str()),
            (None, None) => true,
            _ => false,
        };
        self.cookie.eq(&other.cookie) && self.max_age == other.max_age && same_domain && same_path
            && self.secure == other.secure
    }
}

/// Two optional strings hold the same text, or are both absent.
pub open spec fn opt_str_eq(a: Option<String>, b: Option<String>) -> bool {
    match (a, b) {
        (Some(x), Some(y)) => x@ == y@,
        (None, None) => true,
        _ => false,
    }
}

impl vstd::std_specs::cmp::PartialEqSpecImpl for SetCookie {
    open spec fn obeys_eq_spec() -> bool {
        true
    }

    open spec fn eq_spec(&self, other: &Self) -> bool {
        &&& self.cookie.name@ == other.cookie.name@
        &&& self.cookie.value@ == other.cookie.value@
        &&& self.max_age == other.max_age
        &&& opt_str_eq(self.domain, other.domain)
        &&& opt_str_eq(self.path, other.path)
        &&& self.secure == other.secure
    }
}

/// Text that url encoding can write: url-safe characters and `%`.
pub open spec fn url_text(s: Seq<char>) -> bool {
    forall|i: int| 0 <= i < s.len() ==> url_safe(#[trigger] s[i]) || s[i] == '%'
}

proof fn lemma_url_text_trimmed(s: Seq<char>)
    requires
        url_text(s),
    ensures
        trim_spec(s, CharClass::Whitespace) == s,
        trim_end_spec(s, CharClass::Exactly(';')) == s,
{
    if s.len() > 0 {
        assert(url_safe(s[0]) || s[0] == '%');
        assert(url_safe(s.last()) || s.last() == '%');
    }
    assert(count_leading(s, CharClass::Whitespace) == 0);
    assert(trim_start_spec(s, CharClass::Whitespace) =~= s);
    assert(count_trailing(s, CharClass::Whitespace) == 0);
    assert(s.take(s.len() as int) =~= s);
    assert(count_trailing(s, CharClass::Exactly(';')) == 0);
}

proof fn lemma_no_separator(s: Seq<char>, p: Seq<char>, i: int)
    requires
        p.len() > 0,
        p[0] == ';',
        forall|j: int| 0 <= j < s.len() ==> #[trigger] s[j] != ';',
    ensures
        find_from(s, p, i) is None,
    decreases s.len() + 1 - i,
{
    if !(i < 0 || i + p.len() > s.len()) {
        assert(s.subrange(i, i + p.len())[0] == s[i]);
        lemma_no_separator(s, p, i + 1);
    }
}

/// Text that may stand around the `=` of an encoded cookie.
spec fn pair_text(x: Seq<char>) -> bool {
    forall|i: int| 0 <= i < x.len() ==> url_safe(#[trigger] x[i]) || x[i] == '%' || x[i] == '='
}

proof fn lemma_pair_text(en: Seq<char>, ev: Seq<char>)
    requires
        url_text(en),
        url_text(ev),
    ensures
        pair_text(en + seq!['='] + ev),
        split_once_char(en + seq!['='] + ev, '=') == seq![en, ev],
{
    let x = en + seq!['='] + ev;
    assert forall|j: int| 0 <= j < x.len() implies url_safe(#[trigger] x[j]) || x[j] == '%' || x[j] == '=' by {
        if j < en.len() {
            assert(x[j] == en[j]);
        } else if j > en.len() {
            assert(x[j] == ev[j - en.len() - 1]);
        }
    }
    assert forall|j: int| 0 <= j < en.len() implies x[j] != '=' by {
        assert(x[j] == en[j]);
    }
    lemma_find_char(x, '=', 0, en.len() as int);
    assert(x.take(en.len() as int) =~= en);
    assert(x.skip(en.len() as int + 1) =~= ev);
}

#[verifier::spinoff_prover]
proof fn lemma_pair_header(x: Seq<char>)
    requires
        pair_text(x),
    ensures
        strip_prefix_spec("Cookie:"@ + seq![' '] + x, "Cookie:"@) == Some(seq![' '] + x),
        trim_spec(seq![' '] + x, CharClass::Whitespace) == x,
        split_str(x, "; "@) == seq![x],
{
    let s = "Cookie:"@ + seq![' '] + x;
    reveal_strlit("Cookie:");
    reveal_strlit("; ");
    assert(s.take(7) =~= "Cookie:"@);
    assert(s.skip(7) =~= seq![' '] + x);
    let rest = seq![' '] + x;
    assert(rest[0] == ' ' && rest.drop_first() =~= x);
    if x.len() > 0 {
        assert(url_safe(x[0]) || x[0] == '%' || x[0] == '=');
        assert(url_safe(x.last()) || x.last() == '%' || x.last() == '=');
    }
    assert(count_leading(x, CharClass::Whitespace) == 0);
    assert(count_leading(rest, CharClass::Whitespace) == 1);
    assert(trim_start_spec(rest, CharClass::Whitespace) =~= x);
    assert(count_trailing(x, CharClass::Whitespace) == 0);
    assert(x.take(x.len() as int) =~= x);
    assert forall|j: int| 0 <= j < x.len() implies #[trigger] x[j] != ';' by {
        assert(url_safe(x[j]) || x[j] == '%' || x[j] == '=');
    }
    lemma_no_separator(x, "; "@, 0);
}

/// Cookie names and values are url decoded: a `Cookie:` header holding one
/// cookie whose name and value were url encoded gives back exactly that name
/// and value (for names and values whose characters are below U+0100, which
/// url encoding keeps whole).
pub proof fn lemma_cookie_decoded(name: Seq<char>, value: Seq<char>)
    requires
        is_latin1(name),
        is_latin1(value),
    ensures
        cookies_spec("Cookie:"@ + seq![' '] + encode_spec(name) + seq!['='] + encode_spec(value))
            == Some(seq![(name, value)]),
{
    let en = encode_spec(name);
    let ev = encode_spec(value);
    lemma_encode_chars(name);
    lemma_encode_chars(value);
    let x = en + seq!['='] + ev;
    lemma_pair_text(en, ev);
    lemma_pair_header(x);
    assert("Cookie:"@ + seq![' '] + en + seq!['='] + ev =~= "Cookie:"@ + seq![' '] + x);
    lemma_url_text_trimmed(en);
    lemma_url_text_trimmed(ev);
    lemma_decode_encode(name);
    lemma_decode_encode(value);
    let parts = seq![x];
    assert(parts.last() == x);
    assert(parts.drop_last() =~= Seq::<Seq<char>>::empty());
    let kv = split_once_char(parts.last(), '=');
    assert(kv.len() == 2 && kv[0] == en && kv[1] == ev);
    assert(decode_spec(trim_spec(kv[0], CharClass::Whitespace)) == name);
    assert(decode_spec(trim_end_spec(trim_spec(kv[1], CharClass::Whitespace), CharClass::Exactly(';'))) == value);
    assert(cookie_pairs(Seq::<Seq<char>>::empty()) == Seq::<(Seq<char>, Seq<char>)>::empty());
    assert(cookie_pairs(parts) =~= seq![(name, value)]);
}

} // verus!
