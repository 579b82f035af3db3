//! Character-level building blocks shared by the parsers and formatters of
//! the crate: splitting, trimming, prefix tests, number parsing and printing.
//! Every operation is stated over the `Seq<char>` view of its strings.
use vstd::prelude::*;
use vstd::utf8::encode_utf8;
use vstd::string::StringSliceAdditionalSpecFns;

verus! {

// ---------------------------------------------------------------------------
// Building strings
// ---------------------------------------------------------------------------

/// Appends one character to a `String` (`String::push`).
#[verifier::external_body]
pub(crate) fn push_char(s: &mut String, c: char)
    ensures
        final(s)@ == old(s)@.push(c),
{
    s.push(c);
}

/// The characters of a string slice, in order.
pub fn chars_of(s: &str) -> (r: Vec<char>)
    ensures
        r@ == s@,
{
    let mut out: Vec<char> = Vec::new();
    for c in it: s.chars()
        invariant
            out@ == it.seq().take(it.index() as int),
            it.seq() == s@,
    {
        out.push(c);
    }
    out
}

/// A `String` holding the characters of `v[from..to]`.
pub fn string_from_range(v: &[char], from: usize, to: usize) -> (r: String)
    requires
        from <= to <= v@.len(),
    ensures
        r@ == v@.subrange(from as int, to as int),
{
    let mut out = String::new();
    let mut i = from;
    while i < to
        invariant
            from <= i <= to <= v@.len(),
            out@ == v@.subrange(from as int, i as int),
        decreases to - i,
    {
        push_char(&mut out, v[i]);
        assert(v@.subrange(from as int, i + 1) == v@.subrange(from as int, i as int).push(v@[i as int]));
        i = i + 1;
    }
    out
}

/// A `String` holding the characters of `v`.
pub fn string_from_chars(v: &[char]) -> (r: String)
    ensures
        r@ == v@,
{
    let r = string_from_range(v, 0, v.len());
    assert(v@.subrange(0, v@.len() as int) == v@);
    r
}

/// The UTF-8 bytes of a string slice.
pub fn bytes_of(s: &str) -> (r: Vec<u8>)
    ensures
        r@ == encode_utf8(s@),
{
    let b = s.as_bytes();
    let mut out: Vec<u8> = Vec::new();
    let mut i: usize = 0;
    while i < b.len()
        invariant
            b@ == s.spec_bytes(),
            i <= b@.len(),
            out@ == b@.take(i as int),
        decreases b.len() - i,
    {
        out.push(b[i]);
        assert(b@.take(i + 1) == b@.take(i as int).push(b@[i as int]));
        i = i + 1;
    }
    assert(b@.take(b@.len() as int) == b@);
    out
}

/// The views of a sequence of strings.
pub open spec fn str_views(s: Seq<String>) -> Seq<Seq<char>> {
    s.map_values(|x: String| x@)
}

/// A copy of a list of strings.
pub fn clone_strings(v: &Vec<String>) -> (r: Vec<String>)
    ensures
        r@.len() == v@.len(),
        forall|i: int| 0 <= i < v@.len() ==> #[trigger] r@[i]@ == v@[i]@,
{
    let mut out: Vec<String> = Vec::new();
    let mut i: usize = 0;
    while i < v.len()
        invariant
            i <= v@.len(),
            out@.len() == i,
            forall|k: int| 0 <= k < i ==> #[trigger] out@[k]@ == v@[k]@,
        decreases v.len() - i,
    {
        out.push(v[i].clone());
        i = i + 1;
    }
    out
}

/// Appends the characters of `v` to `s`.
pub fn push_chars(s: &mut String, v: &[char])
    ensures
        final(s)@ == old(s)@ + v@,
{
    let mut i: usize = 0;
    while i < v.len()
        invariant
            i <= v@.len(),
            s@ == old(s)@ + v@.take(i as int),
        decreases v.len() - i,
    {
        push_char(s, v[i]);
        assert(v@.take(i + 1) == v@.take(i as int).push(v@[i as int]));
        i = i + 1;
    }
    assert(v@.take(v@.len() as int) == v@);
}

/// Appends the characters of `t` to `s`.
pub fn push_str(s: &mut String, t: &str)
    ensures
        final(s)@ == old(s)@ + t@,
{
    let v = chars_of(t);
    push_chars(s, v.as_slice());
}

/// Concatenation of two strings as a new `String`.
pub fn concat(a: &str, b: &str) -> (r: String)
    ensures
        r@ == a@ + b@,
{
    let mut out = String::new();
    push_str(&mut out, a);
    push_str(&mut out, b);
    assert(Seq::<char>::empty() + a@ + b@ == a@ + b@);
    out
}

/// Whether two strings hold the same characters.
pub fn str_eq(a: &str, b: &str) -> (r: bool)
    ensures
        r == (a@ == b@),
{
    let va = chars_of(a);
    let vb = chars_of(b);
    chars_eq(va.as_slice(), vb.as_slice())
}

/// Whether two character slices are equal.
pub fn chars_eq(a: &[char], b: &[char]) -> (r: bool)
    ensures
        r == (a@ == b@),
{
    if a.len() != b.len() {
        return false;
    }
    let mut i: usize = 0;
    while i < a.len()
        invariant
            a@.len() == b@.len(),
            i <= a@.len(),
            forall|j: int| 0 <= j < i ==> a@[j] == b@[j],
        decreases a.len() - i,
    {
        if a[i] != b[i] {
            return false;
        }
        i = i + 1;
    }
    assert(a@ =~= b@);
    true
}

// ---------------------------------------------------------------------------
// Character classes, trimming
// ---------------------------------------------------------------------------

/// The characters with the Unicode `White_Space` property, which is what
/// `char::is_whitespace` and `str::trim` use.
pub open spec fn is_ws(c: char) -> bool {
    ||| c == '\t'
    ||| c == '\n'
    ||| c == '\x0B'
    ||| c == '\x0C'
    ||| c == '\r'
    ||| c == ' '
    ||| c == '\u{85}'
    ||| c == '\u{A0}'
    ||| c == '\u{1680}'
    ||| ('\u{2000}' <= c && c <= '\u{200A}')
    ||| c == '\u{2028}'
    ||| c == '\u{2029}'
    ||| c == '\u{202F}'
    ||| c == '\u{205F}'
    ||| c == '\u{3000}'
}

/// Exec test of [`is_ws`].
pub fn is_whitespace(c: char) -> (r: bool)
    ensures
        r == is_ws(c),
{
    c == '\t' || c == '\n' || c == '\x0B' || c == '\x0C' || c == '\r' || c == ' ' || c == '\u{85}'
        || c == '\u{A0}' || c == '\u{1680}' || ('\u{2000}' <= c && c <= '\u{200A}') || c
        == '\u{2028}' || c == '\u{2029}' || c == '\u{202F}' || c == '\u{205F}' || c == '\u{3000}'
}

/// A set of characters to trim: Unicode whitespace, or one given character.
#[derive(Clone, Copy)]
pub enum CharClass {
    Whitespace,
    Exactly(char),
}

pub open spec fn in_class(k: CharClass, c: char) -> bool {
    match k {
        CharClass::Whitespace => is_ws(c),
        CharClass::Exactly(x) => c == x,
    }
}

pub fn class_has(k: CharClass, c: char) -> (r: bool)
    ensures
        r == in_class(k, c),
{
    match k {
        CharClass::Whitespace => is_whitespace(c),
        CharClass::Exactly(x) => c == x,
    }
}

/// Number of leading characters of `s` that belong to `k`.
pub open spec fn count_leading(s: Seq<char>, k: CharClass) -> nat
    decreases s.len(),
{
    if s.len() > 0 && in_class(k, s[0]) {
        1 + count_leading(s.drop_first(), k)
    } else {
        0
    }
}

/// Number of trailing characters of `s` that belong to `k`.
pub open spec fn count_trailing(s: Seq<char>, k: CharClass) -> nat
    decreases s.len(),
{
    if s.len() > 0 && in_class(k, s.last()) {
        1 + count_trailing(s.drop_last(), k)
    } else {
        0
    }
}

/// `s` without its leading characters of class `k` (`str::trim_start_matches`).
pub open spec fn trim_start_spec(s: Seq<char>, k: CharClass) -> Seq<char> {
    s.skip(count_leading(s, k) as int)
}

/// `s` without its trailing characters of class `k` (`str::trim_end_matches`).
pub open spec fn trim_end_spec(s: Seq<char>, k: CharClass) -> Seq<char> {
    s.take(s.len() - count_trailing(s, k))
}

/// `s` without leading and trailing characters of class `k` (`str::trim`,
/// `str::trim_matches`).
pub open spec fn trim_spec(s: Seq<char>, k: CharClass) -> Seq<char> {
    trim_end_spec(trim_start_spec(s, k), k)
}

proof fn lemma_count_leading(s: Seq<char>, k: CharClass, i: int)
    requires
        0 <= i <= s.len(),
        forall|j: int| 0 <= j < i ==> in_class(k, #[trigger] s[j]),
        i == s.len() || !in_class(k, s[i]),
    ensures
        count_leading(s, k) == i,
    decreases i,
{
    if i > 0 {
        assert forall|j: int| 0 <= j < i - 1 implies in_class(k, #[trigger] s.drop_first()[j]) by {
            assert(s.drop_first()[j] == s[j + 1]);
        }
        if i < s.len() {
            assert(s.drop_first()[i - 1] == s[i]);
        }
        lemma_count_leading(s.drop_first(), k, i - 1);
    }
}

proof fn lemma_count_trailing(s: Seq<char>, k: CharClass, i: int)
    requires
        0 <= i <= s.len(),
        forall|j: int| s.len() - i <= j < s.len() ==> in_class(k, #[trigger] s[j]),
        i == s.len() || !in_class(k, s[s.len() - i - 1]),
    ensures
        count_trailing(s, k) == i,
    decreases i,
{
    if i > 0 {
        let t = s.drop_last();
        assert forall|j: int| t.len() - (i - 1) <= j < t.len() implies in_class(k, #[trigger] t[j]) by {
            assert(t[j] == s[j]);
        }
        if i < s.len() {
            assert(t[t.len() - (i - 1) - 1] == s[s.len() - i - 1]);
        }
        lemma_count_trailing(t, k, i - 1);
    }
}

/// Index of the first character of `v[from..to]` not in `k` (or `to`).
pub fn skip_class_forward(v: &[char], from: usize, to: usize, k: CharClass) -> (r: usize)
    requires
        from <= to <= v@.len(),
    ensures
        from <= r <= to,
        r - from == count_leading(v@.subrange(from as int, to as int), k),
{
    let mut i = from;
    while i < to && class_has(k, v[i])
        invariant
            from <= i <= to <= v@.len(),
            forall|j: int| from <= j < i ==> in_class(k, #[trigger] v@[j]),
        decreases to - i,
    {
        i = i + 1;
    }
    proof {
        let s = v@.subrange(from as int, to as int);
        assert forall|j: int| 0 <= j < i - from implies in_class(k, #[trigger] s[j]) by {
            assert(s[j] == v@[from + j]);
        }
        if i < to {
            assert(s[i - from] == v@[i as int]);
        }
        lemma_count_leading(s, k, i - from);
    }
    i
}

/// Index just past the last character of `v[from..to]` not in `k` (or `from`).
pub fn skip_class_backward(v: &[char], from: usize, to: usize, k: CharClass) -> (r: usize)
    requires
        from <= to <= v@.len(),
    ensures
        from <= r <= to,
        to - r == count_trailing(v@.subrange(from as int, to as int), k),
{
    let mut i = to;
    while i > from && class_has(k, v[i - 1])
        invariant
            from <= i <= to <= v@.len(),
            forall|j: int| i <= j < to ==> in_class(k, #[trigger] v@[j]),
        decreases i - from,
    {
        i = i - 1;
    }
    proof {
        let s = v@.subrange(from as int, to as int);
        assert forall|j: int| s.len() - (to - i) <= j < s.len() implies in_class(k, #[trigger] s[j]) by {
            assert(s[j] == v@[from + j]);
        }
        if i > from {
            assert(s[s.len() - (to - i) - 1] == v@[i - 1]);
        }
        lemma_count_trailing(s, k, (to - i) as int);
    }
    i
}

/// Bounds `(a, b)` such that `v[a..b]` is `v[from..to]` trimmed of `k` on both sides.
pub fn trim_bounds(v: &[char], from: usize, to: usize, k: CharClass) -> (r: (usize, usize))
    requires
        from <= to <= v@.len(),
    ensures
        from <= r.0 <= r.1 <= to,
        v@.subrange(r.0 as int, r.1 as int) == trim_spec(v@.subrange(from as int, to as int), k),
{
    let a = skip_class_forward(v, from, to, k);
    let b = skip_class_backward(v, a, to, k);
    proof {
        let s = v@.subrange(from as int, to as int);
        assert(s.skip((a - from) as int) == v@.subrange(a as int, to as int));
        let t = v@.subrange(a as int, to as int);
        assert(t.take(t.len() - (to - b)) == v@.subrange(a as int, b as int));
    }
    (a, b)
}

/// `str::trim_matches` / `str::trim` as an owned string.
pub fn trim_class(s: &str, k: CharClass) -> (r: String)
    ensures
        r@ == trim_spec(s@, k),
{
    let v = chars_of(s);
    let (a, b) = trim_bounds(v.as_slice(), 0, v.len(), k);
    assert(v@.subrange(0, v@.len() as int) == v@);
    string_from_range(v.as_slice(), a, b)
}

/// `str::trim_end_matches` as an owned string.
pub fn trim_end_class(s: &str, k: CharClass) -> (r: String)
    ensures
        r@ == trim_end_spec(s@, k),
{
    let v = chars_of(s);
    let b = skip_class_backward(v.as_slice(), 0, v.len(), k);
    assert(v@.subrange(0, v@.len() as int) == v@);
    string_from_range(v.as_slice(), 0, b)
}

// ---------------------------------------------------------------------------
// Prefixes and searching
// ---------------------------------------------------------------------------

/// `s` starts with `p`.
pub open spec fn has_prefix(s: Seq<char>, p: Seq<char>) -> bool {
    p.len() <= s.len() && s.take(p.len() as int) == p
}

/// `s` ends with `p`.
pub open spec fn has_suffix(s: Seq<char>, p: Seq<char>) -> bool {
    p.len() <= s.len() && s.skip(s.len() - p.len()) == p
}

/// `str::strip_prefix`.
pub open spec fn strip_prefix_spec(s: Seq<char>, p: Seq<char>) -> Option<Seq<char>> {
    if has_prefix(s, p) {
        Some(s.skip(p.len() as int))
    } else {
        None
    }
}

/// `v[at..]` starts with `p`.
pub fn matches_at(v: &[char], at: usize, p: &[char]) -> (r: bool)
    requires
        at <= v@.len(),
    ensures
        r == has_prefix(v@.skip(at as int), p@),
{
    if p.len() > v.len() - at {
        return false;
    }
    let mut i: usize = 0;
    while i < p.len()
        invariant
            at + p@.len() <= v@.len(),
            i <= p@.len(),
            forall|j: int| 0 <= j < i ==> v@[at + j] == p@[j],
        decreases p.len() - i,
    {
        assert(at + i < v.len());
        if v[at + i] != p[i] {
            assert(v@.skip(at as int).take(p@.len() as int)[i as int] == v@[at + i]);
            return false;
        }
        i = i + 1;
    }
    assert(v@.skip(at as int).take(p@.len() as int) =~= p@);
    true
}

/// `str::starts_with`.
pub fn starts_with(s: &str, p: &str) -> (r: bool)
    ensures
        r == has_prefix(s@, p@),
{
    let v = chars_of(s);
    let w = chars_of(p);
    assert(v@.skip(0) == v@);
    matches_at(v.as_slice(), 0, w.as_slice())
}

/// `str::ends_with`.
pub fn ends_with(s: &str, p: &str) -> (r: bool)
    ensures
        r == has_suffix(s@, p@),
{
    let v = chars_of(s);
    let w = chars_of(p);
    if w.len() > v.len() {
        return false;
    }
    let r = matches_at(v.as_slice(), v.len() - w.len(), w.as_slice());
    assert(v@.skip(v@.len() - w@.len()).take(w@.len() as int) == v@.skip(v@.len() - w@.len()));
    r
}

/// `str::strip_prefix` as an owned string.
pub fn strip_prefix(s: &str, p: &str) -> (r: Option<String>)
    ensures
        r matches Some(x) ==> strip_prefix_spec(s@, p@) == Some(x@),
        r is None ==> strip_prefix_spec(s@, p@) is None,
{
    let v = chars_of(s);
    let w = chars_of(p);
    assert(v@.skip(0) == v@);
    if matches_at(v.as_slice(), 0, w.as_slice()) {
        let r = string_from_range(v.as_slice(), w.len(), v.len());
        assert(v@.subrange(w@.len() as int, v@.len() as int) == v@.skip(w@.len() as int));
        Some(r)
    } else {
        None
    }
}

/// Whether character `c` occurs in `s`.
pub fn contains_char(s: &[char], c: char) -> (r: bool)
    ensures
        r == s@.contains(c),
{
    let mut i: usize = 0;
    while i < s.len()
        invariant
            i <= s@.len(),
            forall|j: int| 0 <= j < i ==> s@[j] != c,
        decreases s.len() - i,
    {
        if s[i] == c {
            assert(s@[i as int] == c);
            return true;
        }
        i = i + 1;
    }
    false
}

/// Index of the first occurrence of `p` in `s` at or after `i`.
pub open spec fn find_from(s: Seq<char>, p: Seq<char>, i: int) -> Option<int>
    decreases s.len() + 1 - i,
{
    if i < 0 || i + p.len() > s.len() {
        None
    } else if s.subrange(i, i + p.len()) == p {
        Some(i)
    } else {
        find_from(s, p, i + 1)
    }
}

proof fn lemma_find_from_bounds(s: Seq<char>, p: Seq<char>, i: int)
    ensures
        find_from(s, p, i) matches Some(k) ==> {
            &&& i <= k
            &&& k + p.len() <= s.len()
            &&& s.subrange(k, k + p.len()) == p
        },
    decreases s.len() + 1 - i,
{
    if !(i < 0 || i + p.len() > s.len()) && s.subrange(i, i + p.len()) != p {
        lemma_find_from_bounds(s, p, i + 1);
    }
}

/// The first `c` at or after `i` is at `k` when it is there and not before.
pub proof fn lemma_find_char(s: Seq<char>, c: char, i: int, k: int)
    requires
        0 <= i <= k < s.len(),
        s[k] == c,
        forall|j: int| i <= j < k ==> s[j] != c,
    ensures
        find_from(s, seq![c], i) == Some(k),
    decreases k - i,
{
    if s.subrange(i, i + 1) == seq![c] {
        assert(s[i] == s.subrange(i, i + 1)[0]);
    } else {
        if i == k {
            assert(s.subrange(i, i + 1) =~= seq![c]);
        }
        lemma_find_char(s, c, i + 1, k);
    }
}

/// Exec search for [`find_from`].
pub fn find_chars(v: &[char], p: &[char], from: usize) -> (r: Option<usize>)
    requires
        from <= v@.len(),
    ensures
        r matches Some(k) ==> find_from(v@, p@, from as int) == Some(k as int),
        r is None ==> find_from(v@, p@, from as int) is None,
{
    let mut i = from;
    while p.len() <= v.len() - i
        invariant
            from <= i <= v@.len(),
            find_from(v@, p@, from as int) == find_from(v@, p@, i as int),
        decreases v.len() + 1 - i,
    {
        let m = matches_at(v, i, p);
        assert(v@.skip(i as int).take(p@.len() as int) == v@.subrange(i as int, i + p@.len()));
        if m {
            return Some(i);
        }
        assert(p@.len() > 0) by {
            if p@.len() == 0 {
                assert(v@.subrange(i as int, i as int) =~= p@);
            }
        }
        i = i + 1;
    }
    None
}

// ---------------------------------------------------------------------------
// Splitting
// ---------------------------------------------------------------------------

/// `str::split` with a `char` pattern.
pub open spec fn split_char(s: Seq<char>, c: char) -> Seq<Seq<char>>
    decreases s.len(),
{
    if s.len() == 0 {
        seq![Seq::empty()]
    } else {
        let prev = split_char(s.drop_last(), c);
        if s.last() == c {
            prev.push(Seq::empty())
        } else {
            prev.update(prev.len() - 1, prev.last().push(s.last()))
        }
    }
}

pub proof fn lemma_split_char_nonempty(s: Seq<char>, c: char)
    ensures
        split_char(s, c).len() >= 1,
    decreases s.len(),
{
    if s.len() > 0 {
        lemma_split_char_nonempty(s.drop_last(), c);
    }
}

/// `str::split` with a `char` pattern, every piece as an owned string.
pub fn split_chars(v: &[char], c: char) -> (r: Vec<String>)
    ensures
        r.deep_view() == split_char(v@, c),
{
    let mut pieces: Vec<String> = Vec::new();
    let mut start: usize = 0;
    let mut i: usize = 0;
    assert(pieces.deep_view().len() == 0);
    assert(v@.take(0).len() == 0);
    assert(v@.subrange(0, 0) =~= Seq::<char>::empty());
    assert(pieces.deep_view().push(v@.subrange(0, 0)) =~= split_char(v@.take(0), c));
    while i < v.len()
        invariant
            start <= i <= v@.len(),
            pieces.deep_view().push(v@.subrange(start as int, i as int)) == split_char(
                v@.take(i as int),
                c,
            ),
        decreases v.len() - i,
    {
        proof {
            assert(v@.take(i + 1).drop_last() == v@.take(i as int));
            assert(v@.take(i + 1).last() == v@[i as int]);
            lemma_split_char_nonempty(v@.take(i as int), c);
        }
        if v[i] == c {
            let piece = string_from_range(v, start, i);
            pieces.push(piece);
            start = i + 1;
            assert(v@.subrange(start as int, i + 1) =~= Seq::<char>::empty());
        } else {
            assert(v@.subrange(start as int, i + 1) == v@.subrange(start as int, i as int).push(
                v@[i as int],
            ));
        }
        i = i + 1;
    }
    let last = string_from_range(v, start, v.len());
    pieces.push(last);
    assert(v@.take(v@.len() as int) == v@);
    pieces
}

/// `str::split` with a string pattern (left-most, non-overlapping matches).
pub open spec fn split_str(s: Seq<char>, p: Seq<char>) -> Seq<Seq<char>>
    decreases s.len(),
{
    if p.len() == 0 {
        seq![s]
    } else {
        match find_from(s, p, 0) {
            None => seq![s],
            Some(k) => if 0 <= k && k + p.len() <= s.len() {
                seq![s.take(k)] + split_str(s.skip(k + p.len()), p)
            } else {
                seq![s]
            },
        }
    }
}

/// `str::split` with a non-empty string pattern, every piece as an owned string.
pub fn split_chars_by(v: &[char], p: &[char]) -> (r: Vec<String>)
    requires
        p@.len() > 0,
    ensures
        r.deep_view() == split_str(v@, p@),
{
    let mut pieces: Vec<String> = Vec::new();
    let mut start: usize = 0;
    assert(v@.skip(0) == v@);
    assert(pieces.deep_view() + split_str(v@, p@) =~= split_str(v@, p@));
    loop
        invariant
            start <= v@.len(),
            p@.len() > 0,
            split_str(v@, p@) == pieces.deep_view() + split_str(v@.skip(start as int), p@),
        decreases v@.len() - start,
    {
        let ghost rest = v@.skip(start as int);
        let found = find_chars(v, p, start);
        proof {
            lemma_find_from_shift(v@, p@, start as int);
            lemma_find_from_bounds(v@, p@, start as int);
        }
        match found {
            None => {
                let last = string_from_range(v, start, v.len());
                assert(v@.subrange(start as int, v@.len() as int) == rest);
                pieces.push(last);
                return pieces;
            },
            Some(k) => {
                let piece = string_from_range(v, start, k);
                assert(start <= k && k + p.len() <= v.len());
                let ghost x = v@.subrange(start as int, k as int);
                let ghost tail = split_str(v@.skip(k + p@.len()), p@);
                proof {
                    assert(rest.take(k - start) == x);
                    assert(rest.skip(k - start + p@.len()) == v@.skip(k + p@.len()));
                    assert(split_str(rest, p@) == seq![x] + tail);
                }
                let ghost old_pieces = pieces.deep_view();
                pieces.push(piece);
                assert(pieces.deep_view() == old_pieces.push(x));
                assert(old_pieces + (seq![x] + tail) =~= old_pieces.push(x) + tail);
                start = k + p.len();
            },
        }
    }
}

/// Searching a suffix is searching the whole sequence from the suffix start.
proof fn lemma_find_from_shift(s: Seq<char>, p: Seq<char>, start: int)
    requires
        0 <= start <= s.len(),
    ensures
        match find_from(s, p, start) {
            Some(k) => find_from(s.skip(start), p, 0) == Some(k - start),
            None => find_from(s.skip(start), p, 0) is None,
        },
{
    lemma_find_from_shift_rec(s, p, start, start);
}

proof fn lemma_find_from_shift_rec(s: Seq<char>, p: Seq<char>, start: int, i: int)
    requires
        0 <= start <= i,
        start <= s.len(),
    ensures
        match find_from(s, p, i) {
            Some(k) => find_from(s.skip(start), p, i - start) == Some(k - start),
            None => find_from(s.skip(start), p, i - start) is None,
        },
    decreases s.len() + 1 - i,
{
    let t = s.skip(start);
    if i + p.len() > s.len() {
    } else {
        assert(t.subrange(i - start, i - start + p.len()) == s.subrange(i, i + p.len()));
        if s.subrange(i, i + p.len()) != p {
            lemma_find_from_shift_rec(s, p, start, i + 1);
        }
    }
}

} // verus!

verus! {

// ---------------------------------------------------------------------------
// splitn(2, c)
// ---------------------------------------------------------------------------

/// `str::splitn(2, c)`: the text before the first `c`, and if there is one,
/// the text after it.
pub open spec fn split_once_char(s: Seq<char>, c: char) -> Seq<Seq<char>> {
    match find_from(s, seq![c], 0) {
        Some(k) => seq![s.take(k), s.skip(k + 1)],
        None => seq![s],
    }
}

/// Exec form of [`split_once_char`].
pub fn split_once(v: &[char], c: char) -> (r: Vec<String>)
    ensures
        r.deep_view() == split_once_char(v@, c),
        1 <= r@.len() <= 2,
{
    let pat: Vec<char> = vec![c];
    assert(pat@ == seq![c]);
    let mut out: Vec<String> = Vec::new();
    match find_chars(v, pat.as_slice(), 0) {
        Some(k) => {
            proof {
                lemma_find_from_bounds(v@, pat@, 0);
            }
            let a = string_from_range(v, 0, k);
            assert(k < v.len());
            let b = string_from_range(v, k + 1, v.len());
            out.push(a);
            out.push(b);
            assert(v@.subrange(0, k as int) == v@.take(k as int));
            assert(v@.subrange(k + 1, v@.len() as int) == v@.skip(k + 1));
            assert(out.deep_view() =~= seq![v@.take(k as int), v@.skip(k + 1)]);
        },
        None => {
            let a = string_from_chars(v);
            out.push(a);
            assert(out.deep_view() =~= seq![v@]);
        },
    }
    out
}

// ---------------------------------------------------------------------------
// Unsigned integers: parsing (`str::parse`, `from_str_radix`) and printing
// ---------------------------------------------------------------------------

/// Value of `c` as a digit in base `radix` (10 or 16), if it is one.
pub open spec fn digit_of(c: char, radix: nat) -> Option<nat> {
    if '0' <= c && c <= '9' && (c as int - '0' as int) < radix {
        Some((c as int - '0' as int) as nat)
    } else if radix == 16 && 'a' <= c && c <= 'f' {
        Some((c as int - 'a' as int + 10) as nat)
    } else if radix == 16 && 'A' <= c && c <= 'F' {
        Some((c as int - 'A' as int + 10) as nat)
    } else {
        None
    }
}

pub open spec fn all_digits(s: Seq<char>, radix: nat) -> bool {
    forall|i: int| 0 <= i < s.len() ==> (#[trigger] digit_of(s[i], radix)) is Some
}

/// The number written by the digits of `s` in base `radix`.
pub open spec fn digits_value(s: Seq<char>, radix: nat) -> nat
    decreases s.len(),
{
    if s.len() == 0 {
        0
    } else {
        digits_value(s.drop_last(), radix) * radix + match digit_of(s.last(), radix) {
            Some(d) => d,
            None => 0,
        }
    }
}

/// What `str::parse` (radix 10) or `from_str_radix` returns for an unsigned
/// integer type whose largest value is `max`: an optional `+`, then at least
/// one digit, and a value that fits.
pub open spec fn parse_unsigned_spec(s: Seq<char>, radix: nat, max: nat) -> Option<nat> {
    let body = if s.len() > 0 && s[0] == '+' {
        s.drop_first()
    } else {
        s
    };
    if body.len() > 0 && all_digits(body, radix) && digits_value(body, radix) <= max {
        Some(digits_value(body, radix))
    } else {
        None
    }
}

pub fn digit_value(c: char, radix: u64) -> (r: Option<u64>)
    requires
        radix == 10 || radix == 16,
    ensures
        r matches Some(d) ==> digit_of(c, radix as nat) == Some(d as nat) && d < radix,
        r is None ==> digit_of(c, radix as nat) is None,
{
    if '0' <= c && c <= '9' && (c as u64 - '0' as u64) < radix {
        Some(c as u64 - '0' as u64)
    } else if radix == 16 && 'a' <= c && c <= 'f' {
        Some(c as u64 - 'a' as u64 + 10)
    } else if radix == 16 && 'A' <= c && c <= 'F' {
        Some(c as u64 - 'A' as u64 + 10)
    } else {
        None
    }
}

proof fn lemma_digits_prefix(s: Seq<char>, radix: nat, i: int)
    requires
        0 <= i < s.len(),
        radix >= 1,
    ensures
        digits_value(s.take(i + 1), radix) >= digits_value(s.take(i), radix),
        digits_value(s.take(i + 1), radix) == digits_value(s.take(i), radix) * radix + match digit_of(
            s[i],
            radix,
        ) {
            Some(d) => d,
            None => 0,
        },
{
    assert(s.take(i + 1).drop_last() == s.take(i));
    let v = digits_value(s.take(i), radix);
    assert(v * radix >= v) by (nonlinear_arith)
        requires
            radix >= 1,
    ;
}

proof fn lemma_digits_monotone(s: Seq<char>, radix: nat, i: int, j: int)
    requires
        0 <= i <= j <= s.len(),
        radix >= 1,
    ensures
        digits_value(s.take(j), radix) >= digits_value(s.take(i), radix),
    decreases j - i,
{
    if i < j {
        lemma_digits_monotone(s, radix, i, j - 1);
        lemma_digits_prefix(s, radix, j - 1);
    }
}

/// Parses `v[from..to]` as an unsigned number in base `radix` no larger than
/// `max`, with the rules of [`parse_unsigned_spec`].
pub fn parse_unsigned(v: &[char], from: usize, to: usize, radix: u64, max: u64) -> (r: Option<u64>)
    requires
        from <= to <= v@.len(),
        radix == 10 || radix == 16,
    ensures
        r matches Some(x) ==> parse_unsigned_spec(v@.subrange(from as int, to as int), radix as nat, max as nat) == Some(x as nat),
        r is None ==> parse_unsigned_spec(v@.subrange(from as int, to as int), radix as nat, max as nat) is None,
{
    let ghost s = v@.subrange(from as int, to as int);
    let mut start = from;
    if from < to && v[from] == '+' {
        start = from + 1;
    }
    let ghost body = v@.subrange(start as int, to as int);
    assert(body == (if s.len() > 0 && s[0] == '+' { s.drop_first() } else { s }));
    if start == to {
        return None;
    }
    let mut value: u64 = 0;
    let mut i = start;
    while i < to
        invariant
            start <= i <= to <= v@.len(),
            start < to,
            radix == 10 || radix == 16,
            body == v@.subrange(start as int, to as int),
            s == v@.subrange(from as int, to as int),
            body == (if s.len() > 0 && s[0] == '+' { s.drop_first() } else { s }),
            all_digits(body.take(i - start), radix as nat),
            value as nat == digits_value(body.take(i - start), radix as nat),
            value <= max,
        decreases to - i,
    {
        let d = match digit_value(v[i], radix) {
            Some(d) => d,
            None => {
                assert(body[i - start] == v@[i as int]);
                return None;
            },
        };
        proof {
            assert(body[i - start] == v@[i as int]);
            lemma_digits_prefix(body, radix as nat, i - start);
            lemma_digits_monotone(body, radix as nat, i - start + 1, body.len() as int);
            assert(body.take(body.len() as int) == body);
        }
        if d > max {
            assert(value * radix + d > max) by (nonlinear_arith)
                requires
                    d > max,
                    radix > 0,
            ;
            return None;
        }
        let lim = (max - d) / radix;
        if value > lim {
            assert(value * radix + d > max) by (nonlinear_arith)
                requires
                    value > lim,
                    lim == (max - d) as int / radix as int,
                    radix > 0,
                    d <= max,
            ;
            return None;
        }
        assert(value * radix + d <= max) by (nonlinear_arith)
            requires
                value <= lim,
                lim == (max - d) as int / radix as int,
                radix > 0,
                d <= max,
        ;
        value = value * radix + d;
        i = i + 1;
        proof {
            assert forall|j: int| 0 <= j < i - start implies (#[trigger] digit_of(
                body.take(i - start)[j],
                radix as nat,
            )) is Some by {
                if j < i - start - 1 {
                    assert(body.take(i - start)[j] == body.take(i - start - 1)[j]);
                }
            }
        }
    }
    assert(body.take(to - start) == body);
    Some(value)
}

/// The decimal digit character for `d < 10`.
pub open spec fn digit_char(d: nat) -> char {
    ('0' as int + d) as char
}

/// Decimal representation of `n`, without leading zeros (`u64::to_string`).
pub open spec fn decimal(n: nat) -> Seq<char>
    decreases n,
{
    if n < 10 {
        seq![digit_char(n)]
    } else {
        decimal(n / 10).push(digit_char(n % 10))
    }
}

/// Appends the decimal representation of `n` to `s`.
pub fn push_decimal(s: &mut String, n: u64)
    ensures
        final(s)@ == old(s)@ + decimal(n as nat),
    decreases n,
{
    if n >= 10 {
        push_decimal(s, n / 10);
    }
    let d = (n % 10) as u32;
    let c = char_from_digit(d);
    push_char(s, c);
    assert(old(s)@ + decimal(n as nat) =~= if n < 10 {
        old(s)@.push(digit_char(n as nat))
    } else {
        (old(s)@ + decimal((n / 10) as nat)).push(digit_char((n % 10) as nat))
    });
}

/// The decimal representation of `n` as a new string.
pub fn u64_to_string(n: u64) -> (r: String)
    ensures
        r@ == decimal(n as nat),
{
    let mut s = String::new();
    push_decimal(&mut s, n);
    assert(Seq::<char>::empty() + decimal(n as nat) == decimal(n as nat));
    s
}

pub fn char_from_digit(d: u32) -> (c: char)
    requires
        d < 10,
    ensures
        c == digit_char(d as nat),
{
    let b = (48 + d) as u8;
    b as char
}

// ---------------------------------------------------------------------------
// Unicode case mapping
// ---------------------------------------------------------------------------

/// What `str::to_uppercase` returns for a string.
pub uninterp spec fn str_to_uppercase(s: Seq<char>) -> Seq<char>;

/// `str::to_uppercase`: the Unicode upper-case mapping of every character.
/// Its result is a function of the argument alone, named [`str_to_uppercase`];
/// nothing more about the mapping is stated.
#[verifier::external_body]
pub(crate) fn to_uppercase(s: &str) -> (r: String)
    ensures
        r@ == str_to_uppercase(s@),
{
    s.to_uppercase()
}

} // verus!
