//! Base64 encoding and decoding.
use vstd::prelude::*;
use vstd::string::StringSliceAdditionalSpecFns;
use vstd::utf8::{encode_utf8, is_ascii_chars, is_ascii_chars_encode_utf8};

use crate::text::push_char;

verus! {

/// ASCII code of the Base64 digit for `v < 64`
/// (`A-Z`, `a-z`, `0-9`, `+`, `/`).
pub open spec fn b64_byte(v: u8) -> u8 {
    if v < 26 {
        (65 + v) as u8
    } else if v < 52 {
        (97 + v - 26) as u8
    } else if v < 62 {
        (48 + v - 52) as u8
    } else if v == 62 {
        43u8
    } else {
        47u8
    }
}

/// The four digits that encode the three bytes `a`, `b`, `c`.
pub open spec fn quad(a: u8, b: u8, c: u8) -> Seq<u8> {
    seq![
        b64_byte((a & 0xfc) >> 2),
        b64_byte((((a & 0x03) << 4) + ((b & 0xf0) >> 4)) as u8),
        b64_byte((((b & 0x0f) << 2) + ((c & 0xc0) >> 6)) as u8),
        b64_byte(c & 0x3f),
    ]
}

/// Padded encoding of a last group of one byte.
pub open spec fn quad1(a: u8) -> Seq<u8> {
    seq![b64_byte((a & 0xfc) >> 2), b64_byte((a & 0x03) << 4), 61u8, 61u8]
}

/// Padded encoding of a last group of two bytes.
pub open spec fn quad2(a: u8, b: u8) -> Seq<u8> {
    seq![
        b64_byte((a & 0xfc) >> 2),
        b64_byte((((a & 0x03) << 4) + ((b & 0xf0) >> 4)) as u8),
        b64_byte((b & 0x0f) << 2),
        61u8,
    ]
}

/// Base64 encoding (with `=` padding) of `s`, as ASCII codes.
pub open spec fn encode_bytes_spec(s: Seq<u8>) -> Seq<u8>
    decreases s.len(),
{
    if s.len() == 0 {
        Seq::empty()
    } else if s.len() == 1 {
        quad1(s[0])
    } else if s.len() == 2 {
        quad2(s[0], s[1])
    } else {
        quad(s[0], s[1], s[2]) + encode_bytes_spec(s.skip(3))
    }
}

/// Base64 encoding (with `=` padding) of `s`, as characters.
pub open spec fn encode_spec(s: Seq<u8>) -> Seq<char> {
    encode_bytes_spec(s).map_values(|b: u8| b as char)
}

fn b64_digit(v: u8) -> (c: char)
    requires
        v < 64,
    ensures
        c == (b64_byte(v) as char),
{
    if v < 26 {
        (65 + v) as char
    } else if v < 52 {
        (97 + v - 26) as char
    } else if v < 62 {
        (48 + v - 52) as char
    } else if v == 62 {
        '+'
    } else {
        '/'
    }
}

proof fn lemma_quad_digits(a: u8, b: u8, c: u8)
    ensures
        (a & 0xfc) >> 2 < 64,
        ((a & 0x03) << 4) + ((b & 0xf0) >> 4) < 64,
        ((b & 0x0f) << 2) + ((c & 0xc0) >> 6) < 64,
        c & 0x3f < 64,
        (a & 0x03) << 4 < 64,
        (b & 0x0f) << 2 < 64,
{
    assert((a & 0xfc) >> 2 < 64) by (bit_vector);
    assert(((a & 0x03) << 4) + ((b & 0xf0) >> 4) < 64) by (bit_vector);
    assert(((b & 0x0f) << 2) + ((c & 0xc0) >> 6) < 64) by (bit_vector);
    assert(c & 0x3f < 64) by (bit_vector);
    assert((a & 0x03) << 4 < 64) by (bit_vector);
    assert((b & 0x0f) << 2 < 64) by (bit_vector);
}

fn push_digits(out: &mut String, d: &[u8])
    requires
        forall|i: int| 0 <= i < d@.len() ==> d@[i] < 64,
    ensures
        final(out)@ == old(out)@ + d@.map_values(|v: u8| b64_byte(v) as char),
{
    let mut i: usize = 0;
    while i < d.len()
        invariant
            i <= d@.len(),
            forall|j: int| 0 <= j < d@.len() ==> d@[j] < 64,
            out@ == old(out)@ + d@.take(i as int).map_values(|v: u8| b64_byte(v) as char),
        decreases d.len() - i,
    {
        push_char(out, b64_digit(d[i]));
        assert(d@.take(i + 1).map_values(|v: u8| b64_byte(v) as char) =~= d@.take(
            i as int,
        ).map_values(|v: u8| b64_byte(v) as char).push(b64_byte(d@[i as int]) as char));
        i = i + 1;
    }
    assert(d@.take(d@.len() as int) == d@);
}

/// Encodes a byte slice into a base64 string (with padding).
pub fn encode(inp: &[u8]) -> (r: String)
    ensures
        r@ == encode_spec(inp@),
{
    let mut out = String::new();
    let mut i: usize = 0;
    let ghost whole = inp@;
    assert(inp@.skip(0) == inp@);
    assert(encode_spec(inp@) =~= Seq::<char>::empty() + encode_spec(inp@.skip(0)));
    while i < inp.len()
        invariant
            i <= inp@.len(),
            encode_spec(inp@) == out@ + encode_spec(inp@.skip(i as int)),
        decreases inp.len() - i,
    {
        let ghost rest = inp@.skip(i as int);
        let ghost before = out@;
        let a = inp[i];
        proof {
            assert(rest[0] == a);
        }
        if i + 1 < inp.len() {
            let b = inp[i + 1];
            assert(rest[1] == b);
            if i + 2 < inp.len() {
                let c = inp[i + 2];
                assert(rest[2] == c);
                proof {
                    lemma_quad_digits(a, b, c);
                }
                let d: Vec<u8> = vec![
                    (a & 0xfc) >> 2,
                    ((a & 0x03) << 4) + ((b & 0xf0) >> 4),
                    ((b & 0x0f) << 2) + ((c & 0xc0) >> 6),
                    c & 0x3f,
                ];
                push_digits(&mut out, d.as_slice());
                proof {
                    assert(d@.map_values(|v: u8| b64_byte(v) as char) =~= quad(a, b, c).map_values(
                        |x: u8| x as char,
                    ));
                    assert(rest.skip(3) == inp@.skip(i + 3));
                    assert(encode_bytes_spec(rest) == quad(a, b, c) + encode_bytes_spec(
                        rest.skip(3),
                    ));
                    assert((quad(a, b, c) + encode_bytes_spec(rest.skip(3))).map_values(
                        |x: u8| x as char,
                    ) =~= quad(a, b, c).map_values(|x: u8| x as char) + encode_spec(rest.skip(3)));
                    assert(before + (quad(a, b, c).map_values(|x: u8| x as char) + encode_spec(
                        inp@.skip(i + 3),
                    )) =~= out@ + encode_spec(inp@.skip(i + 3)));
                }
                i = i + 3;
            } else {
                proof {
                    lemma_quad_digits(a, b, 0);
                }
                let d: Vec<u8> = vec![
                    (a & 0xfc) >> 2,
                    ((a & 0x03) << 4) + ((b & 0xf0) >> 4),
                    (b & 0x0f) << 2,
                ];
                push_digits(&mut out, d.as_slice());
                push_char(&mut out, '=');
                proof {
                    assert(rest.len() == 2);
                    assert(out@ =~= before + quad2(a, b).map_values(|x: u8| x as char));
                    assert(inp@.skip(inp@.len() as int) =~= Seq::<u8>::empty());
                    assert(encode_spec(Seq::<u8>::empty()) =~= Seq::<char>::empty());
                }
                i = inp.len();
            }
        } else {
            proof {
                lemma_quad_digits(a, 0, 0);
            }
            let d: Vec<u8> = vec![(a & 0xfc) >> 2, (a & 0x03) << 4];
            push_digits(&mut out, d.as_slice());
            push_char(&mut out, '=');
            push_char(&mut out, '=');
            proof {
                assert(rest.len() == 1);
                assert(out@ =~= before + quad1(a).map_values(|x: u8| x as char));
                assert(inp@.skip(inp@.len() as int) =~= Seq::<u8>::empty());
                assert(encode_spec(Seq::<u8>::empty()) =~= Seq::<char>::empty());
            }
            i = inp.len();
        }
    }
    assert(inp@.skip(inp@.len() as int) =~= Seq::<u8>::empty());
    assert(encode_spec(Seq::<u8>::empty()) =~= Seq::<char>::empty());
    assert(out@ + Seq::<char>::empty() =~= out@);
    out
}


/// A byte that is a Base64 digit.
pub open spec fn is_b64(e: u8) -> bool {
    (65 <= e <= 90) || (97 <= e <= 122) || (48 <= e <= 57) || e == 43 || e == 47
}

/// What the digit `e` in place `i` of a group adds to the group's 24-bit
/// value: its six bits, shifted by `6 * (3 - i)`.
pub open spec fn digit_value_at(e: u8, i: int) -> u32 {
    if 65 <= e <= 90 {
        ((e - 65) as u32) << ((6 * (3 - i)) as u32)
    } else if 97 <= e <= 122 {
        ((e - 71) as u32) << ((6 * (3 - i)) as u32)
    } else if 48 <= e <= 57 {
        ((e + 4) as u32) << ((6 * (3 - i)) as u32)
    } else if e == 43 {
        62u32 << ((6 * (3 - i)) as u32)
    } else if e == 47 {
        63u32 << ((6 * (3 - i)) as u32)
    } else {
        0
    }
}

/// Value accumulated from the first `n` digits of a group.
pub open spec fn acc(c: Seq<u8>, n: int) -> u32
    decreases n,
{
    if n <= 0 {
        0
    } else {
        acc(c, n - 1) | digit_value_at(c[n - 1], n - 1)
    }
}

/// Index of the first byte of `c` that is not a Base64 digit (or `c.len()`).
pub open spec fn first_non_digit(c: Seq<u8>) -> int
    decreases c.len(),
{
    if c.len() == 0 || !is_b64(c[0]) {
        0
    } else {
        1 + first_non_digit(c.drop_first())
    }
}

/// Big-endian bytes of `d`.
pub open spec fn be_bytes(d: u32) -> Seq<u8> {
    seq![(d >> 24) as u8, ((d >> 16) & 0xff) as u8, ((d >> 8) & 0xff) as u8, (d & 0xff) as u8]
}

/// Decoding of one group of at most four bytes: all digits give three
/// bytes; a `=` at place `k` gives the first `k - 1` bytes and ends the
/// group; any other byte fails.
pub open spec fn group_spec(c: Seq<u8>) -> Option<Seq<u8>> {
    let k = first_non_digit(c);
    if k >= c.len() {
        Some(be_bytes(acc(c, c.len() as int)).subrange(1, 4))
    } else if c[k] == 61 && k >= 1 {
        Some(be_bytes(acc(c, k)).subrange(1, k))
    } else {
        None
    }
}

/// A group whose first byte is `=`: the original slices `[1..0]` there.
pub open spec fn group_panics(c: Seq<u8>) -> bool {
    c.len() > 0 && c[0] == 61
}

pub open spec fn group_len(b: Seq<u8>) -> int {
    if b.len() < 4 {
        b.len() as int
    } else {
        4
    }
}

/// Base64 decoding of the bytes `b`, group by group of four.
pub open spec fn decode_spec(b: Seq<u8>) -> Option<Seq<u8>>
    decreases b.len(),
{
    if b.len() == 0 {
        Some(Seq::empty())
    } else {
        match group_spec(b.take(group_len(b))) {
            None => None,
            Some(x) => match decode_spec(b.skip(group_len(b))) {
                None => None,
                Some(y) => Some(x + y),
            },
        }
    }
}

/// The inputs on which decoding reaches a group that starts with `=`
/// before any group that fails.
pub open spec fn decode_panics(b: Seq<u8>) -> bool
    decreases b.len(),
{
    if b.len() == 0 {
        false
    } else if group_panics(b.take(group_len(b))) {
        true
    } else if group_spec(b.take(group_len(b))) is None {
        false
    } else {
        decode_panics(b.skip(group_len(b)))
    }
}

fn digit_part(e: u8, i: usize) -> (r: Option<u32>)
    requires
        i < 4,
    ensures
        r is Some <==> is_b64(e),
        r matches Some(x) ==> x == digit_value_at(e, i as int),
{
    let up = (6 * (3 - i)) as u32;
    if 65 <= e && e <= 90 {
        Some(((e - 65) as u32) << up)
    } else if 97 <= e && e <= 122 {
        Some(((e - 71) as u32) << up)
    } else if 48 <= e && e <= 57 {
        Some(((e + 4) as u32) << up)
    } else if e == 43 {
        Some(62u32 << up)
    } else if e == 47 {
        Some(63u32 << up)
    } else {
        None
    }
}

proof fn lemma_first_non_digit(c: Seq<u8>, k: int)
    requires
        0 <= k <= c.len(),
        forall|j: int| 0 <= j < k ==> is_b64(#[trigger] c[j]),
        k == c.len() || !is_b64(c[k]),
    ensures
        first_non_digit(c) == k,
    decreases k,
{
    if k > 0 {
        assert forall|j: int| 0 <= j < k - 1 implies is_b64(#[trigger] c.drop_first()[j]) by {
            assert(c.drop_first()[j] == c[j + 1]);
        }
        if k < c.len() {
            assert(c.drop_first()[k - 1] == c[k]);
        }
        lemma_first_non_digit(c.drop_first(), k - 1);
    }
}

fn push_be_range(out: &mut Vec<u8>, d: u32, from: usize, to: usize)
    requires
        1 <= from <= to <= 4,
    ensures
        final(out)@ == old(out)@ + be_bytes(d).subrange(from as int, to as int),
{
    let bytes: [u8; 4] = [(d >> 24) as u8, ((d >> 16) & 0xff) as u8, ((d >> 8) & 0xff) as u8, (d
        & 0xff) as u8];
    let mut i = from;
    while i < to
        invariant
            1 <= from <= i <= to <= 4,
            bytes@ == be_bytes(d),
            out@ == old(out)@ + be_bytes(d).subrange(from as int, i as int),
        decreases to - i,
    {
        out.push(bytes[i]);
        assert(be_bytes(d).subrange(from as int, i + 1) == be_bytes(d).subrange(
            from as int,
            i as int,
        ).push(be_bytes(d)[i as int]));
        i = i + 1;
    }
}

/// Decodes one group `b[start..start + n]`, appending its bytes to `out`.
fn decode_group(b: &[u8], start: usize, n: usize, out: &mut Vec<u8>) -> (ok: bool)
    requires
        1 <= n <= 4,
        start + n <= b@.len(),
        !group_panics(b@.subrange(start as int, start + n)),
    ensures
        ok == (group_spec(b@.subrange(start as int, start + n)) is Some),
        ok ==> final(out)@ == old(out)@ + group_spec(b@.subrange(start as int, start + n))->0,
{
    let ghost c = b@.subrange(start as int, start + n);
    let mut decode: u32 = 0;
    let mut j: usize = 0;
    while j < n
        invariant
            1 <= n <= 4,
            start + n <= b.len(),
            c == b@.subrange(start as int, start + n),
            !group_panics(c),
            j <= n,
            decode == acc(c, j as int),
            forall|t: int| 0 <= t < j ==> is_b64(#[trigger] c[t]),
            out@ == old(out)@,
        decreases n - j,
    {
        let e = b[start + j];
        assert(c[j as int] == e);
        match digit_part(e, j) {
            Some(x) => {
                decode = decode | x;
                j = j + 1;
            },
            None => {
                proof {
                    lemma_first_non_digit(c, j as int);
                }
                if e == 61 {
                    assert(j >= 1);
                    push_be_range(out, decode, 1, j);
                    return true;
                } else {
                    return false;
                }
            },
        }
    }
    proof {
        lemma_first_non_digit(c, n as int);
    }
    push_be_range(out, decode, 1, 4);
    true
}

/// Decodes a base64 string into bytes; `None` when a group holds a byte
/// that is neither a Base64 digit nor `=`.
pub fn decode(inp: &str) -> (r: Option<Vec<u8>>)
    requires
        !decode_panics(inp.spec_bytes()),
    ensures
        r is Some <==> decode_spec(inp.spec_bytes()) is Some,
        r matches Some(v) ==> decode_spec(inp.spec_bytes()) == Some(v@),
{
    let b = inp.as_bytes();
    let ghost whole = b@;
    let mut out: Vec<u8> = Vec::new();
    let mut i: usize = 0;
    assert(b@.skip(0) == b@);
    while i < b.len()
        invariant
            i <= b@.len(),
            whole == b@,
            whole == inp.spec_bytes(),
            !decode_panics(b@.skip(i as int)),
            decode_spec(whole) == match decode_spec(b@.skip(i as int)) {
                None => None,
                Some(y) => Some(out@ + y),
            },
        decreases b.len() - i,
    {
        let ghost rest = b@.skip(i as int);
        let n: usize = if b.len() - i < 4 {
            b.len() - i
        } else {
            4
        };
        assert(rest.take(group_len(rest)) == b@.subrange(i as int, i + n));
        assert(rest.skip(group_len(rest)) == b@.skip(i + n));
        let ghost before = out@;
        let ok = decode_group(b, i, n, &mut out);
        if !ok {
            assert(rest.len() > 0);
            assert(decode_spec(rest) is None);
            return None;
        }
        proof {
            let x = group_spec(b@.subrange(i as int, i + n))->0;
            match decode_spec(b@.skip(i + n)) {
                None => {},
                Some(y) => {
                    assert(before + (x + y) =~= out@ + y);
                },
            }
        }
        i = i + n;
    }
    assert(b@.skip(b@.len() as int) =~= Seq::<u8>::empty());
    assert(out@ + Seq::<u8>::empty() =~= out@);
    Some(out)
}


proof fn lemma_digit_roundtrip(v: u8, j: int)
    requires
        v < 64,
        0 <= j < 4,
    ensures
        is_b64(b64_byte(v)),
        digit_value_at(b64_byte(v), j) == (v as u32) << ((6 * (3 - j)) as u32),
        b64_byte(v) != 61,
{
}

proof fn lemma_b64_byte_special(v: u8)
    requires
        v < 64,
    ensures
        b64_byte(v) < 128,
        (b64_byte(v) == 43) == (v == 62),
        (b64_byte(v) == 47) == (v == 63),
{
}

proof fn lemma_three_bytes(a: u8, b: u8, c: u8)
    ensures
        ({
            let v0 = ((a & 0xfc) >> 2) as u32;
            let v1 = ((((a & 0x03) << 4) + ((b & 0xf0) >> 4)) as u8) as u32;
            let v2 = ((((b & 0x0f) << 2) + ((c & 0xc0) >> 6)) as u8) as u32;
            let v3 = (c & 0x3f) as u32;
            let d = (((0u32 | (v0 << 18u32)) | (v1 << 12u32)) | (v2 << 6u32)) | (v3 << 0u32);
            &&& ((d >> 16) & 0xff) as u8 == a
            &&& ((d >> 8) & 0xff) as u8 == b
            &&& (d & 0xff) as u8 == c
        }),
{
    assert({
        let v0 = ((a & 0xfc) >> 2) as u32;
        let v1 = ((((a & 0x03) << 4) + ((b & 0xf0) >> 4)) as u8) as u32;
        let v2 = ((((b & 0x0f) << 2) + ((c & 0xc0) >> 6)) as u8) as u32;
        let v3 = (c & 0x3f) as u32;
        let d = (((0u32 | (v0 << 18u32)) | (v1 << 12u32)) | (v2 << 6u32)) | (v3 << 0u32);
        &&& ((d >> 16) & 0xff) as u8 == a
        &&& ((d >> 8) & 0xff) as u8 == b
        &&& (d & 0xff) as u8 == c
    }) by (bit_vector);
}

proof fn lemma_two_bytes(a: u8, b: u8)
    ensures
        ({
            let v0 = ((a & 0xfc) >> 2) as u32;
            let v1 = ((((a & 0x03) << 4) + ((b & 0xf0) >> 4)) as u8) as u32;
            let v2 = ((b & 0x0f) << 2) as u32;
            let d = ((0u32 | (v0 << 18u32)) | (v1 << 12u32)) | (v2 << 6u32);
            &&& ((d >> 16) & 0xff) as u8 == a
            &&& ((d >> 8) & 0xff) as u8 == b
        }),
{
    assert({
        let v0 = ((a & 0xfc) >> 2) as u32;
        let v1 = ((((a & 0x03) << 4) + ((b & 0xf0) >> 4)) as u8) as u32;
        let v2 = ((b & 0x0f) << 2) as u32;
        let d = ((0u32 | (v0 << 18u32)) | (v1 << 12u32)) | (v2 << 6u32);
        &&& ((d >> 16) & 0xff) as u8 == a
        &&& ((d >> 8) & 0xff) as u8 == b
    }) by (bit_vector);
}

proof fn lemma_one_byte(a: u8)
    ensures
        ({
            let v0 = ((a & 0xfc) >> 2) as u32;
            let v1 = ((a & 0x03) << 4) as u32;
            let d = (0u32 | (v0 << 18u32)) | (v1 << 12u32);
            ((d >> 16) & 0xff) as u8 == a
        }),
{
    assert({
        let v0 = ((a & 0xfc) >> 2) as u32;
        let v1 = ((a & 0x03) << 4) as u32;
        let d = (0u32 | (v0 << 18u32)) | (v1 << 12u32);
        ((d >> 16) & 0xff) as u8 == a
    }) by (bit_vector);
}

proof fn lemma_quad_group(a: u8, b: u8, c: u8)
    ensures
        group_spec(quad(a, b, c)) == Some(seq![a, b, c]),
        !group_panics(quad(a, b, c)),
{
    let q = quad(a, b, c);
    lemma_quad_digits(a, b, c);
    let v0 = (a & 0xfc) >> 2;
    let v1 = (((a & 0x03) << 4) + ((b & 0xf0) >> 4)) as u8;
    let v2 = (((b & 0x0f) << 2) + ((c & 0xc0) >> 6)) as u8;
    let v3 = c & 0x3f;
    lemma_b64_byte_special(v0);
    lemma_b64_byte_special(v1);
    lemma_b64_byte_special(v2);
    lemma_b64_byte_special(v3);
    lemma_digit_roundtrip(v0, 0);
    lemma_digit_roundtrip(v1, 1);
    lemma_digit_roundtrip(v2, 2);
    lemma_digit_roundtrip(v3, 3);
    lemma_first_non_digit(q, 4);
    lemma_three_bytes(a, b, c);
    assert(acc(q, 0) == 0);
    assert(acc(q, 1) == 0u32 | ((v0 as u32) << 18u32));
    assert(acc(q, 2) == acc(q, 1) | ((v1 as u32) << 12u32));
    assert(acc(q, 3) == acc(q, 2) | ((v2 as u32) << 6u32));
    assert(acc(q, 4) == acc(q, 3) | ((v3 as u32) << 0u32));
    assert(be_bytes(acc(q, 4)).subrange(1, 4) =~= seq![a, b, c]);
}

proof fn lemma_quad2_group(a: u8, b: u8)
    ensures
        group_spec(quad2(a, b)) == Some(seq![a, b]),
        !group_panics(quad2(a, b)),
{
    let q = quad2(a, b);
    lemma_quad_digits(a, b, 0);
    let v0 = (a & 0xfc) >> 2;
    let v1 = (((a & 0x03) << 4) + ((b & 0xf0) >> 4)) as u8;
    let v2 = (b & 0x0f) << 2;
    lemma_b64_byte_special(v0);
    lemma_b64_byte_special(v1);
    lemma_b64_byte_special(v2);
    lemma_digit_roundtrip(v0, 0);
    lemma_digit_roundtrip(v1, 1);
    lemma_digit_roundtrip(v2, 2);
    lemma_first_non_digit(q, 3);
    lemma_two_bytes(a, b);
    assert(acc(q, 0) == 0);
    assert(acc(q, 1) == 0u32 | ((v0 as u32) << 18u32));
    assert(acc(q, 2) == acc(q, 1) | ((v1 as u32) << 12u32));
    assert(acc(q, 3) == acc(q, 2) | ((v2 as u32) << 6u32));
    assert(be_bytes(acc(q, 3)).subrange(1, 3) =~= seq![a, b]);
}

proof fn lemma_quad1_group(a: u8)
    ensures
        group_spec(quad1(a)) == Some(seq![a]),
        !group_panics(quad1(a)),
{
    let q = quad1(a);
    lemma_quad_digits(a, 0, 0);
    let v0 = (a & 0xfc) >> 2;
    let v1 = (a & 0x03) << 4;
    lemma_b64_byte_special(v0);
    lemma_b64_byte_special(v1);
    lemma_digit_roundtrip(v0, 0);
    lemma_digit_roundtrip(v1, 1);
    lemma_first_non_digit(q, 2);
    lemma_one_byte(a);
    assert(acc(q, 0) == 0);
    assert(acc(q, 1) == 0u32 | ((v0 as u32) << 18u32));
    assert(acc(q, 2) == acc(q, 1) | ((v1 as u32) << 12u32));
    assert(be_bytes(acc(q, 2)).subrange(1, 2) =~= seq![a]);
}

proof fn lemma_encode_bytes(x: Seq<u8>)
    ensures
        forall|i: int| 0 <= i < encode_bytes_spec(x).len() ==> encode_bytes_spec(x)[i] < 128,
    decreases x.len(),
{
    if x.len() == 1 {
        lemma_quad_digits(x[0], 0, 0);
        lemma_b64_byte_special((x[0] & 0xfc) >> 2);
        lemma_b64_byte_special((x[0] & 0x03) << 4);
    } else if x.len() == 2 {
        lemma_quad_digits(x[0], x[1], 0);
        lemma_b64_byte_special((x[0] & 0xfc) >> 2);
        lemma_b64_byte_special((((x[0] & 0x03) << 4) + ((x[1] & 0xf0) >> 4)) as u8);
        lemma_b64_byte_special((x[1] & 0x0f) << 2);
    } else if x.len() > 2 {
        lemma_encode_bytes(x.skip(3));
        let (a, b, c) = (x[0], x[1], x[2]);
        lemma_quad_digits(a, b, c);
        lemma_b64_byte_special((a & 0xfc) >> 2);
        lemma_b64_byte_special((((a & 0x03) << 4) + ((b & 0xf0) >> 4)) as u8);
        lemma_b64_byte_special((((b & 0x0f) << 2) + ((c & 0xc0) >> 6)) as u8);
        lemma_b64_byte_special(c & 0x3f);
        let q = quad(a, b, c);
        let t = encode_bytes_spec(x.skip(3));
        assert forall|i: int| 0 <= i < (q + t).len() implies (q + t)[i] < 128 by {
            if i >= 4 {
                assert((q + t)[i] == t[i - 4]);
            }
        }
    }
}

/// The bytes of the encoded text are the ASCII codes of its characters.
proof fn lemma_encode_utf8(x: Seq<u8>)
    ensures
        encode_utf8(encode_spec(x)) == encode_bytes_spec(x),
{
    let e = encode_bytes_spec(x);
    let cs = encode_spec(x);
    lemma_encode_bytes(x);
    assert forall|i: int| 0 <= i < cs.len() implies '\0' <= #[trigger] cs[i] <= '\u{7f}' by {
        assert(cs[i] == (e[i] as char));
    }
    is_ascii_chars_encode_utf8(cs);
    assert forall|i: int| 0 <= i < cs.len() implies encode_utf8(cs)[i] == e[i] by {
        assert(cs[i] == (e[i] as char));
        assert((cs[i] as u8) == e[i]);
    }
    assert(encode_utf8(cs) =~= e);
}

proof fn lemma_decode_group_then(g: Seq<u8>, o: Seq<u8>, rest: Seq<u8>, r: Seq<u8>)
    requires
        g.len() == 4,
        group_spec(g) == Some(o),
        !group_panics(g),
        decode_spec(rest) == Some(r),
        !decode_panics(rest),
    ensures
        decode_spec(g + rest) == Some(o + r),
        !decode_panics(g + rest),
{
    let b = g + rest;
    assert(group_len(b) == 4);
    assert(b.take(4) =~= g);
    assert(b.skip(4) =~= rest);
}

proof fn lemma_decode_encode_bytes(x: Seq<u8>)
    ensures
        decode_spec(encode_bytes_spec(x)) == Some(x),
        !decode_panics(encode_bytes_spec(x)),
    decreases x.len(),
{
    let e = encode_bytes_spec(x);
    let empty = Seq::<u8>::empty();
    assert(decode_spec(empty) == Some(empty));
    assert(!decode_panics(empty));
    if x.len() == 1 {
        lemma_quad1_group(x[0]);
        lemma_decode_group_then(e, seq![x[0]], empty, empty);
        assert(e + empty =~= e);
        assert(seq![x[0]] + empty =~= x);
    } else if x.len() == 2 {
        lemma_quad2_group(x[0], x[1]);
        lemma_decode_group_then(e, seq![x[0], x[1]], empty, empty);
        assert(e + empty =~= e);
        assert(seq![x[0], x[1]] + empty =~= x);
    } else if x.len() > 2 {
        let q = quad(x[0], x[1], x[2]);
        let t = encode_bytes_spec(x.skip(3));
        assert(e == q + t);
        lemma_quad_group(x[0], x[1], x[2]);
        lemma_decode_encode_bytes(x.skip(3));
        lemma_decode_group_then(q, seq![x[0], x[1], x[2]], t, x.skip(3));
        assert(seq![x[0], x[1], x[2]] + x.skip(3) =~= x);
    }
}

/// Decoding gives back the encoded bytes.
pub proof fn lemma_decode_encode(x: Seq<u8>)
    ensures
        decode_spec(encode_utf8(encode_spec(x))) == Some(x),
        !decode_panics(encode_utf8(encode_spec(x))),
{
    lemma_encode_utf8(x);
    lemma_decode_encode_bytes(x);
}

} // verus!
