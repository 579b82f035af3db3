//! Cookies (the cookie types of the first API).
//!
//! This module provides a simple interface for setting and receiving cookies.
use vstd::prelude::*;
use vstd::string::StringExecFns;

use crate::http::cookie::set_cookie_raw_string;
use crate::text::{
    chars_of, decimal, split_chars_by, split_once, split_once_char, split_str, strip_prefix,
    strip_prefix_spec, trim_end_class, trim_end_spec, CharClass,
};

verus! {

/// Represents a Cookie
#[derive(Debug, Clone)]
pub struct Cookie {
    /// Cookie Key
    pub name: String,
    /// Cookie Value
    pub value: String,
}

/// Represents a Client's Cookie
///
/// Has more information than a normal Cookie
/// (e.g. max-age, domain, path, secure)
#[derive(Debug, Clone)]
pub struct SetCookie {
    pub cookie: Cookie,
    pub max_age: Option<u64>,
    pub domain: Option<String>,
    pub path: Option<String>,
    pub secure: bool,
}

/// The cookies of the `"; "`-separated parts: each part is split at its
/// first `=` into name and value (trailing `;` removed from the value); a
/// part without `=` makes the whole parse fail.
pub open spec fn cookie_parts(parts: Seq<Seq<char>>) -> Option<Seq<(Seq<char>, Seq<char>)>>
    decreases parts.len(),
{
    if parts.len() == 0 {
        Some(Seq::empty())
    } else {
        match cookie_parts(parts.drop_last()) {
            None => None,
            Some(prev) => {
                let kv = split_once_char(parts.last(), '=');
                if kv.len() == 2 {
                    Some(prev.push((kv[0], trim_end_spec(kv[1], CharClass::Exactly(';')))))
                } else {
                    None
                }
            },
        }
    }
}

/// What [`Cookie::from_string`] returns for a header text.
pub open spec fn cookies_spec(s: Seq<char>) -> Option<Seq<(Seq<char>, Seq<char>)>> {
    match strip_prefix_spec(s, "Cookie: "@) {
        None => None,
        Some(rest) => cookie_parts(split_str(rest, "; "@)),
    }
}

pub open spec fn cookies_view(v: Seq<Cookie>) -> Seq<(Seq<char>, Seq<char>)> {
    v.map_values(|c: Cookie| (c.name@, c.value@))
}

/// The untrimmed text of a Set-Cookie header value.
pub open spec fn set_cookie_raw(c: SetCookie) -> Seq<char> {
    c.cookie.name@ + "="@ + c.cookie.value@ + "; "@ + (match c.max_age {
        Some(n) => "Max-Age="@ + decimal(n as nat) + "; "@,
        None => Seq::empty(),
    }) + (match c.domain {
        Some(d) => "Domain="@ + d@ + "; "@,
        None => Seq::empty(),
    }) + (match c.path {
        Some(p) => "Path="@ + p@ + "; "@,
        None => Seq::empty(),
    }) + (if c.secure {
        "Secure; "@
    } else {
        Seq::empty()
    })
}

impl Cookie {
    /// Make a new Cookie
    pub fn new(name: &str, value: &str) -> (r: Cookie)
        ensures
            r.name@ == name@,
            r.value@ == value@,
    {
        Cookie { name: String::from_str(name), value: String::from_str(value) }
    }

    /// Make a Vec of Cookies from a String
    ///
    /// Intended for making Cookie Vec from HTTP Headers
    pub fn from_string(cookie_string: &str) -> (r: Option<Vec<Cookie>>)
        ensures
            r is Some <==> cookies_spec(cookie_string@) is Some,
            r matches Some(v) ==> cookies_spec(cookie_string@) == Some(cookies_view(v@)),
    {
        let rest = match strip_prefix(cookie_string, "Cookie: ") {
            Some(r) => r,
            None => return None,
        };
        let rv = chars_of(rest.as_str());
        let sep = chars_of("; ");
        proof {
            reveal_strlit("; ");
        }
        let parts = split_chars_by(rv.as_slice(), sep.as_slice());
        let mut out: Vec<Cookie> = Vec::new();
        let mut i: usize = 0;
        while i < parts.len()
            invariant
                i <= parts@.len(),
                cookie_parts(parts.deep_view().take(i as int)) == Some(cookies_view(out@)),
                parts.deep_view() == split_str(rv@, "; "@),
                strip_prefix_spec(cookie_string@, "Cookie: "@) == Some(rv@),
            decreases parts.len() - i,
        {
            let pv = chars_of(parts[i].as_str());
            let kv = split_once(pv.as_slice(), '=');
            assert(parts.deep_view().take(i + 1).drop_last() == parts.deep_view().take(i as int));
            assert(parts.deep_view()[i as int] == parts@[i as int]@);
            if kv.len() != 2 {
                proof {
                    lemma_cookie_parts_fail(parts.deep_view(), i as int);
                    assert(parts.deep_view().take(parts@.len() as int) == parts.deep_view());
                }
                return None;
            }
            let value = trim_end_class(kv[1].as_str(), CharClass::Exactly(';'));
            let ghost before = out@;
            out.push(Cookie { name: kv[0].clone(), value });
            assert(cookies_view(out@) =~= cookies_view(before).push((kv@[0]@, value@)));
            i = i + 1;
        }
        assert(parts.deep_view().take(parts@.len() as int) == parts.deep_view());
        Some(out)
    }

    /// The text `Display` writes: `name=value`.
    pub fn to_string(&self) -> (r: String)
        ensures
            r@ == self.name@ + "="@ + self.value@,
    {
        let mut s = self.name.clone();
        crate::text::push_str(&mut s, "=");
        crate::text::push_str(&mut s, self.value.as_str());
        s
    }
}

proof fn lemma_cookie_parts_fail(parts: Seq<Seq<char>>, i: int)
    requires
        0 <= i < parts.len(),
        split_once_char(parts[i], '=').len() != 2,
    ensures
        cookie_parts(parts) is None,
{
    lemma_cookie_parts_fail_from(parts, i, parts.len() as int);
    assert(parts.take(parts.len() as int) == parts);
}

proof fn lemma_cookie_parts_fail_from(parts: Seq<Seq<char>>, i: int, n: int)
    requires
        0 <= i < n <= parts.len(),
        split_once_char(parts[i], '=').len() != 2,
    ensures
        cookie_parts(parts.take(n)) is None,
    decreases n,
{
    assert(parts.take(n).drop_last() == parts.take(n - 1));
    assert(parts.take(n).last() == parts[n - 1]);
    if n - 1 > i {
        lemma_cookie_parts_fail_from(parts, i, n - 1);
    }
    if n == parts.len() {
        assert(parts.take(n) == parts);
    }
}

impl SetCookie {
    /// Make a new simple SetCookie
    pub fn new(name: &str, value: &str) -> (r: SetCookie)
        ensures
            r.cookie.name@ == name@,
            r.cookie.value@ == value@,
            r.max_age is None,
            r.domain is None,
            r.path is None,
            !r.secure,
    {
        SetCookie {
            cookie: Cookie::new(name, value),
            max_age: None,
            domain: None,
            path: None,
            secure: false,
        }
    }

    /// Make a new SetCookie with all fields
    pub fn full_new(cookie: Cookie, max_age: u64, domain: &str, path: &str, secure: bool) -> (r:
        SetCookie)
        ensures
            r.cookie == cookie,
            r.max_age == Some(max_age),
            r.domain matches Some(d) && d@ == domain@,
            r.path matches Some(p) && p@ == path@,
            r.secure == secure,
    {
        SetCookie {
            cookie,
            max_age: Some(max_age),
            domain: Some(String::from_str(domain)),
            path: Some(String::from_str(path)),
            secure,
        }
    }

    /// Set the Max-Age field of a SetCookie
    ///
    /// This is the number of seconds the cookie should be valid for.
    pub fn set_max_age(self, max_age: u64) -> (r: SetCookie)
        ensures
            r == (SetCookie { max_age: Some(max_age), ..self }),
    {
        let mut new = self;
        new.max_age = Some(max_age);
        new
    }

    /// Set the Domain field of a SetCookie
    pub fn set_domain(self, domain: &str) -> (r: SetCookie)
        ensures
            r.domain matches Some(d) && d@ == domain@,
            r.cookie == self.cookie,
            r.max_age == self.max_age,
            r.path == self.path,
            r.secure == self.secure,
    {
        let mut new = self;
        new.domain = Some(String::from_str(domain));
        new
    }

    /// Set the Path field of a SetCookie
    pub fn set_path(self, path: &str) -> (r: SetCookie)
        ensures
            r.path matches Some(p) && p@ == path@,
            r.cookie == self.cookie,
            r.max_age == self.max_age,
            r.domain == self.domain,
            r.secure == self.secure,
    {
        let mut new = self;
        new.path = Some(String::from_str(path));
        new
    }

    /// Set the Secure field of a SetCookie
    pub fn set_secure(self, secure: bool) -> (r: SetCookie)
        ensures
            r == (SetCookie { secure, ..self }),
    {
        let mut new = self;
        new.secure = secure;
        new
    }

    /// The text `Display` writes, as in a `Set-Cookie` header.
    pub fn to_string(&self) -> (r: String)
        ensures
            r@ == trim_end_spec(set_cookie_raw(*self), CharClass::Whitespace),
    {
        let s = set_cookie_raw_string(
            self.cookie.name.as_str(),
            self.cookie.value.as_str(),
            self.max_age,
            &self.domain,
            &self.path,
            self.secure,
        );
        trim_end_class(s.as_str(), CharClass::Whitespace)
    }
}

} // verus!
