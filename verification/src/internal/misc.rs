//! Some little functions used here and there.
use vstd::prelude::*;

use crate::error::{Error, StartupError};
use crate::text::{
    chars_of, lemma_split_char_nonempty, parse_unsigned, parse_unsigned_spec, push_char, split_char,
    split_chars,
};

verus! {

/// An octet of an address: a decimal number up to 255, with an optional `+`.
pub open spec fn octet_spec(s: Seq<char>) -> Option<nat> {
    parse_unsigned_spec(s, 10, 255)
}

/// What [`parse_ip`] gives: `localhost` is 127.0.0.1; otherwise the address
/// must be exactly four dot-separated parts, each an octet.
pub open spec fn parse_ip_spec(raw: Seq<char>) -> Option<Seq<u8>> {
    if raw == "localhost"@ {
        Some(seq![127u8, 0u8, 0u8, 1u8])
    } else {
        let parts = split_char(raw, '.');
        if parts.len() == 4 && octet_spec(parts[0]) is Some && octet_spec(parts[1]) is Some
            && octet_spec(parts[2]) is Some && octet_spec(parts[3]) is Some {
            Some(
                seq![
                    octet_spec(parts[0])->0 as u8,
                    octet_spec(parts[1])->0 as u8,
                    octet_spec(parts[2])->0 as u8,
                    octet_spec(parts[3])->0 as u8,
                ],
            )
        } else {
            None
        }
    }
}

/// The octet of a text, if it is one.
pub fn octet(s: &str) -> (r: Option<u8>)
    ensures
        r matches Some(x) ==> octet_spec(s@) == Some(x as nat),
        r is None ==> octet_spec(s@) is None,
{
    let v = chars_of(s);
    assert(v@.subrange(0, v@.len() as int) == v@);
    match parse_unsigned(v.as_slice(), 0, v.len(), 10, 255) {
        Some(x) => Some(x as u8),
        None => None,
    }
}

/// Parse a string to an IPv4 address.
/// Gives a [`StartupError::InvalidIp`] if the address has an invalid format.
pub fn parse_ip(raw: &str) -> (r: Result<[u8; 4], Error>)
    ensures
        match parse_ip_spec(raw@) {
            Some(ip) => r matches Ok(a) && a@ == ip,
            None => r matches Err(Error::Startup(StartupError::InvalidIp)),
        },
{
    if crate::text::str_eq(raw, "localhost") {
        let a: [u8; 4] = [127, 0, 0, 1];
        assert(a@ =~= seq![127u8, 0u8, 0u8, 1u8]);
        return Ok(a);
    }
    let v = chars_of(raw);
    let parts = split_chars(v.as_slice(), '.');
    proof {
        lemma_split_char_nonempty(raw@, '.');
    }
    if parts.len() != 4 {
        return Err(Error::Startup(StartupError::InvalidIp));
    }
    assert(parts.deep_view()[0] == parts@[0]@);
    assert(parts.deep_view()[1] == parts@[1]@);
    assert(parts.deep_view()[2] == parts@[2]@);
    assert(parts.deep_view()[3] == parts@[3]@);
    let a = match octet(parts[0].as_str()) {
        Some(x) => x,
        None => return Err(Error::Startup(StartupError::InvalidIp)),
    };
    let b = match octet(parts[1].as_str()) {
        Some(x) => x,
        None => return Err(Error::Startup(StartupError::InvalidIp)),
    };
    let c = match octet(parts[2].as_str()) {
        Some(x) => x,
        None => return Err(Error::Startup(StartupError::InvalidIp)),
    };
    let d = match octet(parts[3].as_str()) {
        Some(x) => x,
        None => return Err(Error::Startup(StartupError::InvalidIp)),
    };
    let ip: [u8; 4] = [a, b, c, d];
    assert(ip@ =~= seq![a, b, c, d]);
    Ok(ip)
}

/// A text with every `\r` and `\n` removed.
pub open spec fn filter_crlf_spec(s: Seq<char>) -> Seq<char>
    decreases s.len(),
{
    if s.len() == 0 {
        Seq::empty()
    } else if s.last() == '\r' || s.last() == '\n' {
        filter_crlf_spec(s.drop_last())
    } else {
        filter_crlf_spec(s.drop_last()).push(s.last())
    }
}

/// Filter out all `\r` and `\n` from a string, to prevent CRLF injection.
pub fn filter_crlf(value: &str) -> (r: String)
    ensures
        r@ == filter_crlf_spec(value@),
{
    let v = chars_of(value);
    let mut out = String::new();
    let mut i: usize = 0;
    while i < v.len()
        invariant
            i <= v@.len(),
            out@ == filter_crlf_spec(v@.take(i as int)),
        decreases v.len() - i,
    {
        assert(v@.take(i + 1).drop_last() == v@.take(i as int));
        assert(v@.take(i + 1).last() == v@[i as int]);
        if v[i] != '\r' && v[i] != '\n' {
            push_char(&mut out, v[i]);
        }
        i = i + 1;
    }
    assert(v@.take(v@.len() as int) == v@);
    out
}

/// The text that [`filter_crlf`] gives holds no `\r` or `\n`.
pub proof fn lemma_filter_crlf_clean(s: Seq<char>)
    ensures
        forall|i: int| 0 <= i < filter_crlf_spec(s).len() ==> #[trigger] filter_crlf_spec(s)[i] != '\r'
            && filter_crlf_spec(s)[i] != '\n',
    decreases s.len(),
{
    if s.len() > 0 {
        lemma_filter_crlf_clean(s.drop_last());
        let p = filter_crlf_spec(s.drop_last());
        if !(s.last() == '\r' || s.last() == '\n') {
            assert forall|i: int| 0 <= i < p.push(s.last()).len() implies #[trigger] p.push(s.last())[i]
                != '\r' && p.push(s.last())[i] != '\n' by {
                if i < p.len() {
                    assert(p.push(s.last())[i] == p[i]);
                }
            }
        }
    }
}

} // verus!
