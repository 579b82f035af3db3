//! Some little functions used here and there.
use vstd::prelude::*;

use crate::error::{Error, StartupError};
use crate::internal::misc::{octet, octet_spec};
use crate::text::{chars_of, lemma_split_char_nonempty, split_char, split_chars};

verus! {

/// What [`parse_ip`] gives: `localhost` is 127.0.0.1; otherwise there must
/// be exactly four dot-separated parts, each an octet.
pub open spec fn parse_ip_exact_spec(raw: Seq<char>) -> Option<Seq<u8>> {
    if raw == "localhost"@ {
        Some(seq![127u8, 0u8, 0u8, 1u8])
    } else {
        let parts = split_char(raw, '.');
        if parts.len() == 4 && octet_spec(parts[0]) is Some && octet_spec(parts[1]) is Some
            && octet_spec(parts[2]) is Some && octet_spec(parts[3]) is Some {
            Some(
                seq![
                    octet_spec(parts[0])->0 as u8,
                    octet_spec(parts[1])->0 as u8,
                    octet_spec(parts[2])->0 as u8,
                    octet_spec(parts[3])->0 as u8,
                ],
            )
        } else {
            None
        }
    }
}

/// Parse a string to an IPv4 address.
/// Gives a [`StartupError::InvalidIp`] if the address has an invalid format.
/// Only IPv4 is supported.
pub fn parse_ip(raw: &str) -> (r: Result<[u8; 4], Error>)
    ensures
        match parse_ip_exact_spec(raw@) {
            Some(ip) => r matches Ok(a) && a@ == ip,
            None => r matches Err(Error::Startup(StartupError::InvalidIp)),
        },
{
    if crate::text::str_eq(raw, "localhost") {
        let a: [u8; 4] = [127, 0, 0, 1];
        assert(a@ =~= seq![127u8, 0u8, 0u8, 1u8]);
        return Ok(a);
    }
    let v = chars_of(raw);
    let parts = split_chars(v.as_slice(), '.');
    if parts.len() != 4 {
        return Err(Error::Startup(StartupError::InvalidIp));
    }
    let mut ip: [u8; 4] = [0, 0, 0, 0];
    let mut i: usize = 0;
    while i < 4
        invariant
            i <= 4,
            raw@ != "localhost"@,
            parts@.len() == 4,
            parts.deep_view() == split_char(raw@, '.'),
            forall|k: int| 0 <= k < i ==> octet_spec(split_char(raw@, '.')[k]) == Some(#[trigger] ip@[k] as nat),
        decreases 4 - i,
    {
        assert(parts.deep_view()[i as int] == parts@[i as int]@);
        match octet(parts[i].as_str()) {
            Some(x) => {
                ip[i] = x;
            },
            None => return Err(Error::Startup(StartupError::InvalidIp)),
        }
        i = i + 1;
    }
    let ghost parts_v = split_char(raw@, '.');
    assert(ip@ =~= seq![
        octet_spec(parts_v[0])->0 as u8,
        octet_spec(parts_v[1])->0 as u8,
        octet_spec(parts_v[2])->0 as u8,
        octet_spec(parts_v[3])->0 as u8,
    ]);
    Ok(ip)
}

} // verus!
