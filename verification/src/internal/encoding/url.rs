//! Url encoding and decoding.
use vstd::prelude::*;

use crate::text::{
    all_digits, chars_of, digits_value, parse_unsigned, parse_unsigned_spec, push_char, digit_of,
};

verus! {

/// The character whose code point is the byte `b` (`char::from(u8)`).
pub open spec fn byte_char(b: u8) -> char {
    b as char
}

/// Result of url decoding: `+` becomes a space, `%` followed by two
/// characters that `u8::from_str_radix(_, 16)` accepts becomes the character
/// of that byte; a `%` followed by anything else is dropped together with
/// the (up to two) characters after it.
pub open spec fn decode_spec(s: Seq<char>) -> Seq<char>
    decreases s.len(),
{
    if s.len() == 0 {
        Seq::empty()
    } else if s[0] == '+' {
        seq![' '] + decode_spec(s.drop_first())
    } else if s[0] == '%' {
        if s.len() < 3 {
            Seq::empty()
        } else {
            match parse_unsigned_spec(s.subrange(1, 3), 16, 255) {
                Some(b) => seq![byte_char(b as u8)] + decode_spec(s.skip(3)),
                None => decode_spec(s.skip(3)),
            }
        }
    } else {
        seq![s[0]] + decode_spec(s.drop_first())
    }
}

/// Decode a url encoded string.
/// Supports `+` and `%` encoding.
/// If invalid encoding is found, it will be ignored.
pub fn decode(url: &str) -> (r: String)
    ensures
        r@ == decode_spec(url@),
{
    let v = chars_of(url);
    let mut out = String::new();
    let mut i: usize = 0;
    assert(v@.skip(0) == v@);
    assert(Seq::<char>::empty() + decode_spec(v@) == decode_spec(v@));
    while i < v.len()
        invariant
            i <= v@.len(),
            decode_spec(v@) == out@ + decode_spec(v@.skip(i as int)),
        decreases v.len() - i,
    {
        let ghost rest = v@.skip(i as int);
        let ghost before = out@;
        assert(rest[0] == v@[i as int]);
        let c = v[i];
        if c == '+' {
            push_char(&mut out, ' ');
            assert(rest.drop_first() == v@.skip(i + 1));
            assert(before + (seq![' '] + decode_spec(rest.drop_first())) =~= out@ + decode_spec(
                v@.skip(i + 1),
            ));
            i = i + 1;
        } else if c == '%' {
            if v.len() - i < 3 {
                assert(before + Seq::<char>::empty() =~= out@);
                assert(v@.skip(v@.len() as int) =~= Seq::<char>::empty());
                i = v.len();
            } else {
                let parsed = parse_unsigned(v.as_slice(), i + 1, i + 3, 16, 255);
                assert(rest.subrange(1, 3) == v@.subrange(i + 1, i + 3));
                assert(rest.skip(3) == v@.skip(i + 3));
                match parsed {
                    Some(b) => {
                        push_char(&mut out, (b as u8) as char);
                        assert(before + (seq![byte_char(b as u8)] + decode_spec(rest.skip(3)))
                            =~= out@ + decode_spec(v@.skip(i + 3)));
                    },
                    None => {},
                }
                i = i + 3;
            }
        } else {
            push_char(&mut out, c);
            assert(rest.drop_first() == v@.skip(i + 1));
            assert(before + (seq![c] + decode_spec(rest.drop_first())) =~= out@ + decode_spec(
                v@.skip(i + 1),
            ));
            i = i + 1;
        }
    }
    assert(v@.skip(v@.len() as int) =~= Seq::<char>::empty());
    assert(out@ + Seq::<char>::empty() =~= out@);
    out
}

/// Characters that url encoding leaves as they are: `A-Z`, `a-z`, `0-9`,
/// `-`, `.`, `_` and `~`.
pub open spec fn url_safe(c: char) -> bool {
    ||| ('A' <= c && c <= 'Z')
    ||| ('a' <= c && c <= 'z')
    ||| ('0' <= c && c <= '9')
    ||| c == '-'
    ||| c == '.'
    ||| c == '_'
    ||| c == '~'
}

/// Upper-case hexadecimal digit for `d < 16`.
pub open spec fn hex_upper(d: nat) -> char {
    if d < 10 {
        ('0' as int + d) as char
    } else {
        ('A' as int + d - 10) as char
    }
}

/// Encoding of one character: itself if it is url safe, otherwise `%` and
/// two upper-case hex digits of the low byte of its code point.
pub open spec fn encode_char(c: char) -> Seq<char> {
    if url_safe(c) {
        seq![c]
    } else {
        let b = (c as u32 % 256) as nat;
        seq!['%', hex_upper(b / 16), hex_upper(b % 16)]
    }
}

/// Url encoding of a whole string, character by character.
pub open spec fn encode_spec(s: Seq<char>) -> Seq<char>
    decreases s.len(),
{
    if s.len() == 0 {
        Seq::empty()
    } else {
        encode_char(s[0]) + encode_spec(s.drop_first())
    }
}

fn hex_digit_upper(d: u32) -> (c: char)
    requires
        d < 16,
    ensures
        c == hex_upper(d as nat),
{
    if d < 10 {
        ((48 + d) as u8) as char
    } else {
        ((55 + d) as u8) as char
    }
}

fn is_url_safe(c: char) -> (r: bool)
    ensures
        r == url_safe(c),
{
    ('A' <= c && c <= 'Z') || ('a' <= c && c <= 'z') || ('0' <= c && c <= '9') || c == '-' || c
        == '.' || c == '_' || c == '~'
}

/// Encodes a string with url encoding.
/// Uses `%20` for spaces not `+`.
/// Allowed characters are `A-Z`, `a-z`, `0-9`, `-`, `.`, `_` and `~`.
pub fn encode(url: &str) -> (r: String)
    ensures
        r@ == encode_spec(url@),
{
    let v = chars_of(url);
    let mut out = String::new();
    let mut i: usize = 0;
    assert(v@.skip(0) == v@);
    assert(Seq::<char>::empty() + encode_spec(v@) == encode_spec(v@));
    while i < v.len()
        invariant
            i <= v@.len(),
            encode_spec(v@) == out@ + encode_spec(v@.skip(i as int)),
        decreases v.len() - i,
    {
        let ghost rest = v@.skip(i as int);
        let ghost before = out@;
        let c = v[i];
        assert(rest[0] == c);
        assert(rest.drop_first() == v@.skip(i + 1));
        if is_url_safe(c) {
            push_char(&mut out, c);
        } else {
            let b = (c as u32) % 256;
            push_char(&mut out, '%');
            push_char(&mut out, hex_digit_upper(b / 16));
            push_char(&mut out, hex_digit_upper(b % 16));
        }
        assert(out@ == before + encode_char(c));
        assert(before + (encode_char(c) + encode_spec(rest.drop_first())) =~= out@ + encode_spec(
            v@.skip(i + 1),
        ));
        i = i + 1;
    }
    assert(v@.skip(v@.len() as int) =~= Seq::<char>::empty());
    assert(out@ + Seq::<char>::empty() =~= out@);
    out
}

/// Every character of `s` has a code point below 256.
pub open spec fn is_latin1(s: Seq<char>) -> bool {
    forall|i: int| 0 <= i < s.len() ==> (s[i] as u32) < 256
}

proof fn lemma_hex_upper_digit(d: nat)
    requires
        d < 16,
    ensures
        digit_of(hex_upper(d), 16) == Some(d),
{
}

proof fn lemma_decode_encode_char(c: char, rest: Seq<char>)
    requires
        (c as u32) < 256,
    ensures
        decode_spec(encode_char(c) + rest) == seq![c] + decode_spec(rest),
{
    let e = encode_char(c) + rest;
    if url_safe(c) {
        assert(e[0] == c);
        assert(e.drop_first() == rest);
    } else {
        let b = (c as u32 % 256) as nat;
        let h = seq![hex_upper(b / 16), hex_upper(b % 16)];
        assert(e[0] == '%');
        assert(e.subrange(1, 3) == h);
        assert(e.skip(3) == rest);
        lemma_hex_upper_digit(b / 16);
        lemma_hex_upper_digit(b % 16);
        assert(h.drop_last() == seq![hex_upper(b / 16)]);
        assert(seq![hex_upper(b / 16)].drop_last() =~= Seq::<char>::empty());
        let h1 = seq![hex_upper(b / 16)];
        assert(h1.drop_last() =~= Seq::<char>::empty());
        assert(h1.last() == hex_upper(b / 16));
        assert(digits_value(Seq::<char>::empty(), 16) == 0);
        assert(digits_value(h1.drop_last(), 16) == 0);
        assert(digits_value(h1, 16) == b / 16);
        assert(h.last() == hex_upper(b % 16));
        assert(digits_value(h, 16) == (b / 16) * 16 + b % 16);
        assert(digits_value(h, 16) == b);
        assert(h[0] == hex_upper(b / 16) && h[1] == hex_upper(b % 16));
        assert(parse_unsigned_spec(h, 16, 255) == Some(b));
        assert(byte_char(b as u8) == c);
    }
}

/// Url decoding undoes url encoding for every string whose characters are
/// all below U+0100 (encoding keeps only the low byte of a code point).
pub proof fn lemma_decode_encode(s: Seq<char>)
    requires
        is_latin1(s),
    ensures
        decode_spec(encode_spec(s)) == s,
    decreases s.len(),
{
    if s.len() > 0 {
        let t = s.drop_first();
        assert(is_latin1(t)) by {
            assert forall|i: int| 0 <= i < t.len() implies (t[i] as u32) < 256 by {
                assert(t[i] == s[i + 1]);
            }
        }
        lemma_decode_encode(t);
        lemma_decode_encode_char(s[0], encode_spec(t));
        assert(seq![s[0]] + t =~= s);
    }
}

/// The value of a hexadecimal digit, in either case.
pub open spec fn hex_value(c: char) -> Option<nat> {
    if '0' <= c && c <= '9' {
        Some((c as int - '0' as int) as nat)
    } else if 'a' <= c && c <= 'f' {
        Some((c as int - 'a' as int + 10) as nat)
    } else if 'A' <= c && c <= 'F' {
        Some((c as int - 'A' as int + 10) as nat)
    } else {
        None
    }
}

proof fn lemma_two_digits(h1: char, h2: char)
    ensures
        hex_value(h1) is Some && hex_value(h2) is Some ==> parse_unsigned_spec(
            seq![h1, h2],
            16,
            255,
        ) == Some(hex_value(h1)->0 * 16 + hex_value(h2)->0),
        h1 == '+' && hex_value(h2) is Some ==> parse_unsigned_spec(seq![h1, h2], 16, 255)
            == Some(hex_value(h2)->0),
        !(hex_value(h1) is Some && hex_value(h2) is Some) && !(h1 == '+' && hex_value(h2) is Some)
            ==> parse_unsigned_spec(seq![h1, h2], 16, 255) is None,
{
    let s = seq![h1, h2];
    let t = seq![h2];
    assert(s.drop_first() =~= t);
    assert(s.drop_last() =~= seq![h1]);
    assert(seq![h1].drop_last() =~= Seq::<char>::empty());
    assert(t.drop_last() =~= Seq::<char>::empty());
    assert(digits_value(Seq::<char>::empty(), 16) == 0);
    assert(digits_value(seq![h1], 16) == digits_value(seq![h1].drop_last(), 16) * 16 + match digit_of(
        h1,
        16,
    ) {
        Some(d) => d,
        None => 0,
    });
    assert(s[0] == h1 && s[1] == h2 && t[0] == h2);
    if !(hex_value(h1) is Some && hex_value(h2) is Some) && !(h1 == '+' && hex_value(h2) is Some) {
        if h1 == '+' {
            assert(!all_digits(t, 16));
        } else {
            assert(!(digit_of(s[0], 16) is Some) || !(digit_of(s[1], 16) is Some));
            assert(!all_digits(s, 16));
        }
    }
    if hex_value(h1) is Some && hex_value(h2) is Some {
        assert(all_digits(s, 16));
    }
    if h1 == '+' && hex_value(h2) is Some {
        assert(all_digits(t, 16));
    }
}

/// What url decoding does, character by character, for every string `rest`
/// that follows: `+` becomes a space; `%` and two hexadecimal digits of
/// either case become the character of their byte, as does `%+` and one
/// digit (`u8::from_str_radix` takes a leading `+`); `%` and two characters
/// that are neither are dropped with them; a `%` with fewer than two
/// characters after it ends the text; any other character stays.
pub proof fn lemma_decode_steps(c: char, h1: char, h2: char, rest: Seq<char>)
    ensures
        decode_spec(seq!['+'] + rest) == seq![' '] + decode_spec(rest),
        hex_value(h1) is Some && hex_value(h2) is Some ==> decode_spec(
            seq!['%', h1, h2] + rest,
        ) == seq![byte_char((hex_value(h1)->0 * 16 + hex_value(h2)->0) as u8)] + decode_spec(rest),
        h1 == '+' && hex_value(h2) is Some ==> decode_spec(seq!['%', h1, h2] + rest)
            == seq![byte_char(hex_value(h2)->0 as u8)] + decode_spec(rest),
        !(hex_value(h1) is Some && hex_value(h2) is Some) && !(h1 == '+' && hex_value(h2) is Some)
            ==> decode_spec(seq!['%', h1, h2] + rest) == decode_spec(rest),
        decode_spec(seq!['%']) == Seq::<char>::empty(),
        decode_spec(seq!['%', h1]) == Seq::<char>::empty(),
        c != '%' && c != '+' ==> decode_spec(seq![c] + rest) == seq![c] + decode_spec(rest),
{
    let p = seq!['+'] + rest;
    assert(p[0] == '+' && p.drop_first() =~= rest);
    let e = seq!['%', h1, h2] + rest;
    assert(e[0] == '%' && e.subrange(1, 3) =~= seq![h1, h2] && e.skip(3) =~= rest);
    lemma_two_digits(h1, h2);
    let q = seq![c] + rest;
    assert(q[0] == c && q.drop_first() =~= rest);
}

/// Url encoding writes only url-safe characters and `%`.
pub proof fn lemma_encode_chars(s: Seq<char>)
    ensures
        forall|i: int| 0 <= i < encode_spec(s).len() ==> url_safe(#[trigger] encode_spec(s)[i])
            || encode_spec(s)[i] == '%',
    decreases s.len(),
{
    if s.len() > 0 {
        let t = s.drop_first();
        lemma_encode_chars(t);
        let c = s[0];
        let e = encode_char(c);
        if !url_safe(c) {
            let b = (c as u32 % 256) as nat;
            assert(url_safe(hex_upper(b / 16)) && url_safe(hex_upper(b % 16)));
        }
        assert forall|i: int| 0 <= i < encode_spec(s).len() implies url_safe(#[trigger] encode_spec(s)[i])
            || encode_spec(s)[i] == '%' by {
            if i >= e.len() {
                assert(encode_spec(s)[i] == encode_spec(t)[i - e.len()]);
            }
        }
    }
}

/// What url encoding does, character by character, for every string `rest`
/// that follows: a url-safe character stays; any other becomes `%` and the
/// two upper-case hexadecimal digits of the low byte of its code point.
pub proof fn lemma_encode_steps(c: char, rest: Seq<char>)
    ensures
        url_safe(c) ==> encode_spec(seq![c] + rest) == seq![c] + encode_spec(rest),
        !url_safe(c) ==> encode_spec(seq![c] + rest) == seq![
            '%',
            "0123456789ABCDEF"@[(c as u32 % 256) as int / 16],
            "0123456789ABCDEF"@[(c as u32 % 256) as int % 16],
        ] + encode_spec(rest),
{
    reveal_strlit("0123456789ABCDEF");
    let q = seq![c] + rest;
    assert(q[0] == c && q.drop_first() =~= rest);
    let b = (c as u32 % 256) as nat;
    let digits = "0123456789ABCDEF"@;
    assert(forall|d: nat| d < 16 ==> #[trigger] hex_upper(d) == digits[d as int]);
    assert(hex_upper(b / 16) == digits[(b / 16) as int]);
    assert(hex_upper(b % 16) == digits[(b % 16) as int]);
}

} // verus!
