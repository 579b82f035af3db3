//! A router for matching request paths against routes.
//! To find the route that should process a request, all added routes are checked in reverse order.
//! The first route that matches the request path is used.
//!
//! There are five kinds of segments that make up a route path
//! ('any string' includes the empty string):
//!
//! | Name      | Syntax  | Description                                                         |
//! | --------- | :-----: | ------------------------------------------------------------------- |
//! | Separator | `/`     | Matches the slash character.                                        |
//! | Literal   | `...`   | A literal string that must match exactly.                           |
//! | Parameter | `{...}` | A named parameter matched to any string before the next separator. |
//! | Wildcard  | `*`     | Like a parameter, but does not capture a value.                     |
//! | AnyAfter  | `**`    | Matches the rest of the path, regardless of its contents.           |
use vstd::prelude::*;
use vstd::string::StringExecFns;
use vstd::string::StringSliceAdditionalSpecFns;
use vstd::utf8::{
    encode_utf8, encode_utf8_valid_utf8, is_ascii_chars, is_ascii_chars_encode_utf8, is_char_boundary,
    is_char_boundary_iff_is_leading_byte, is_char_boundary_iff_not_is_continuation_byte,
    is_char_boundary_start_end_of_seq, valid_utf8, valid_utf8_split,
};

use std::ops::Range;

use crate::error::{Error, PathError, StartupError};
use crate::text::{chars_of, clone_strings, matches_at, push_char, push_str, str_eq, str_views};

verus! {

// ---------------------------------------------------------------------------
// Segments
// ---------------------------------------------------------------------------

/// A segment of a route path.
#[derive(Debug)]
pub enum Segment {
    /// A separator that must be matched exactly (/).
    Separator,
    /// A literal string that must match exactly.
    Literal(String),
    /// A named parameter that matches any string before the next separator, including the empty string.
    Parameter,
    /// Matches any string before the next separator, like a parameter, but captures nothing.
    Wildcard,
    /// Matches the rest of the path, regardless of its contents.
    AnyAfter,
}

/// What a [`Segment`] is, with its literal text as characters.
pub enum SegmentView {
    Separator,
    Literal(Seq<char>),
    Parameter,
    Wildcard,
    AnyAfter,
}

impl View for Segment {
    type V = SegmentView;

    open spec fn view(&self) -> SegmentView {
        match self {
            Segment::Separator => SegmentView::Separator,
            Segment::Literal(l) => SegmentView::Literal(l@),
            Segment::Parameter => SegmentView::Parameter,
            Segment::Wildcard => SegmentView::Wildcard,
            Segment::AnyAfter => SegmentView::AnyAfter,
        }
    }
}

/// The views of a sequence of segments.
pub open spec fn seg_views(s: Seq<Segment>) -> Seq<SegmentView> {
    s.map_values(|x: Segment| x@)
}

/// Parameters, wildcards and any-after segments may not stand next to each other.
pub open spec fn is_special(s: SegmentView) -> bool {
    s is Parameter || s is Wildcard || s is AnyAfter
}

impl Segment {
    fn disallow_adjacent(&self) -> (r: bool)
        ensures
            r == is_special(self@),
    {
        match self {
            Segment::Wildcard | Segment::AnyAfter | Segment::Parameter => true,
            _ => false,
        }
    }
}

// ---------------------------------------------------------------------------
// Tokenizing
// ---------------------------------------------------------------------------

/// The segments of a route and the names of its parameters, in order.
pub type Parsed = (Seq<SegmentView>, Seq<Seq<char>>);

/// The literal segment that pending text becomes, if there is any.
pub open spec fn flushed(buf: Seq<char>) -> Seq<SegmentView> {
    if buf.len() == 0 {
        Seq::empty()
    } else {
        seq![SegmentView::Literal(buf)]
    }
}

/// Puts segments and names in front of a tokenizing outcome; errors pass through.
pub open spec fn prepend(
    t: Seq<SegmentView>,
    p: Seq<Seq<char>>,
    r: Result<Parsed, PathError>,
) -> Result<Parsed, PathError> {
    match r {
        Ok(x) => Ok((t + x.0, p + x.1)),
        Err(e) => Err(e),
    }
}

/// The index of the first curly bracket in `s`.
pub open spec fn brace_pos(s: Seq<char>) -> Option<int>
    decreases s.len(),
{
    if s.len() == 0 {
        None
    } else if s[0] == '{' || s[0] == '}' {
        Some(0)
    } else {
        match brace_pos(s.drop_first()) {
            Some(j) => Some(j + 1),
            None => None,
        }
    }
}

/// `brace_pos` finds the first brace of a text, if it has one.
pub proof fn lemma_brace_pos(s: Seq<char>)
    ensures
        brace_pos(s) matches Some(j) ==> 0 <= j < s.len() && (s[j] == '{' || s[j] == '}'),
        brace_pos(s) matches Some(j) ==> forall|k: int| 0 <= k < j ==> s[k] != '{' && s[k] != '}',
        brace_pos(s) is None ==> forall|k: int| 0 <= k < s.len() ==> s[k] != '{' && s[k] != '}',
    decreases s.len(),
{
    if s.len() > 0 && s[0] != '{' && s[0] != '}' {
        lemma_brace_pos(s.drop_first());
        assert forall|k: int| 1 <= k < s.len() implies s[k] == s.drop_first()[k - 1] by {}
    }
}

/// How the tokenizer reads `rest`, with `buf` the literal text read so far:
/// `/` is a separator, `{name}` a parameter, `**` any-after, `*` a wildcard,
/// and every other character literal text.
pub open spec fn tokenize_spec(rest: Seq<char>, buf: Seq<char>) -> Result<Parsed, PathError>
    decreases rest.len(),
{
    if rest.len() == 0 {
        Ok((flushed(buf), Seq::empty()))
    } else {
        let c = rest[0];
        if c == '/' {
            prepend(
                flushed(buf).push(SegmentView::Separator),
                Seq::empty(),
                tokenize_spec(rest.drop_first(), Seq::empty()),
            )
        } else if c == '{' {
            let s = rest.drop_first();
            match brace_pos(s) {
                None => Err(PathError::UnterminatedParameter),
                Some(j) => {
                    if s[j] == '{' {
                        Err(PathError::NestedParameter)
                    } else {
                        proof {
                            lemma_brace_pos(s);
                        }
                        prepend(
                            flushed(buf).push(SegmentView::Parameter),
                            seq![s.take(j)],
                            tokenize_spec(s.skip(j + 1), Seq::empty()),
                        )
                    }
                },
            }
        } else if c == '*' && rest.len() > 1 && rest[1] == '*' {
            prepend(
                flushed(buf).push(SegmentView::AnyAfter),
                Seq::empty(),
                tokenize_spec(rest.skip(2), Seq::empty()),
            )
        } else if c == '*' {
            prepend(
                flushed(buf).push(SegmentView::Wildcard),
                Seq::empty(),
                tokenize_spec(rest.drop_first(), Seq::empty()),
            )
        } else {
            tokenize_spec(rest.drop_first(), buf.push(c))
        }
    }
}

proof fn lemma_seg_views_push(s: Seq<Segment>, x: Segment)
    ensures
        seg_views(s.push(x)) == seg_views(s).push(x@),
{
    assert(seg_views(s.push(x)) =~= seg_views(s).push(x@));
}

proof fn lemma_prepend_empty(r: Result<Parsed, PathError>)
    ensures
        prepend(Seq::empty(), Seq::empty(), r) == r,
{
    if let Ok(x) = r {
        assert(Seq::<SegmentView>::empty() + x.0 =~= x.0);
        assert(Seq::<Seq<char>>::empty() + x.1 =~= x.1);
    }
}

proof fn lemma_prepend_prepend(
    a: Seq<SegmentView>,
    b: Seq<Seq<char>>,
    c: Seq<SegmentView>,
    d: Seq<Seq<char>>,
    r: Result<Parsed, PathError>,
)
    ensures
        prepend(a, b, prepend(c, d, r)) == prepend(a + c, b + d, r),
{
    match r {
        Ok(x) => {
            assert(a + (c + x.0) =~= (a + c) + x.0);
            assert(b + (d + x.1) =~= (b + d) + x.1);
        },
        Err(_) => {},
    }
}

/// Splits a route path into segments.
pub struct Tokenizer {
    chars: Vec<char>,
    index: usize,
    /// The segments read so far.
    pub tokens: Vec<Segment>,
    /// The names of the parameters read so far.
    pub parameters: Vec<String>,
    buffer: String,
}

impl Tokenizer {
    /// The characters not read yet.
    pub closed spec fn rest(&self) -> Seq<char> {
        self.chars@.skip(self.index as int)
    }

    /// Literal text read but not yet made a segment.
    pub closed spec fn pending(&self) -> Seq<char> {
        self.buffer@
    }

    pub closed spec fn wf(&self) -> bool {
        self.index <= self.chars@.len()
    }

    /// What the tokenizer holds: its segments and parameter names.
    pub closed spec fn parsed(&self) -> Parsed {
        (seg_views(self.tokens@), str_views(self.parameters@))
    }

    /// What finishing the work from this state gives.
    pub closed spec fn outcome(&self) -> Result<Parsed, PathError> {
        prepend(self.parsed().0, self.parsed().1, tokenize_spec(self.rest(), self.pending()))
    }

    /// A tokenizer at the start of `path`.
    pub fn new(path: &str) -> (r: Tokenizer)
        ensures
            r.wf(),
            r.rest() == path@,
            r.pending() == Seq::<char>::empty(),
            r.parsed() == (Seq::<SegmentView>::empty(), Seq::<Seq<char>>::empty()),
    {
        let t = Tokenizer {
            chars: chars_of(path),
            index: 0,
            tokens: Vec::new(),
            parameters: Vec::new(),
            buffer: String::new(),
        };
        assert(t.chars@.skip(0) == t.chars@);
        assert(t.parsed().0 =~= Seq::<SegmentView>::empty());
        assert(t.parsed().1 =~= Seq::<Seq<char>>::empty());
        t
    }

    /// Read the rest of the path.
    /// On success the segments and parameter names read are appended to
    /// `tokens` and `parameters`; otherwise the error is returned.
    pub fn tokenize(&mut self) -> (r: Result<(), PathError>)
        requires
            old(self).wf(),
        ensures
            final(self).wf(),
            (match r {
                Ok(()) => Ok(final(self).parsed()),
                Err(e) => Err(e),
            }) == old(self).outcome(),
    {
        let ghost target = self.outcome();
        while self.index < self.chars.len()
            invariant
                self.wf(),
                self.outcome() == target,
                target == old(self).outcome(),
            decreases self.chars@.len() - self.index,
        {
            let ghost rest = self.rest();
            let ghost buf = self.pending();
            let ghost t0 = self.parsed();
            assert(rest[0] == self.chars@[self.index as int]);
            assert(rest.drop_first() == self.chars@.skip(self.index + 1));
            let chr = self.next();
            if chr == '/' {
                self.flush_buffer();
                let ghost mid = self.tokens@;
                self.tokens.push(Segment::Separator);
                proof {
                    lemma_seg_views_push(mid, Segment::Separator);
                    assert(seg_views(self.tokens@) =~= t0.0 + flushed(buf).push(SegmentView::Separator));
                    assert(t0.1 + Seq::<Seq<char>>::empty() =~= t0.1);
                    lemma_prepend_prepend(t0.0, t0.1, flushed(buf).push(SegmentView::Separator), Seq::empty(), tokenize_spec(self.rest(), Seq::empty()));
                }
            } else if chr == '{' {
                self.flush_buffer();
                let ghost t1 = self.parsed();
                proof {
                    lemma_brace_pos(self.rest());
                }
                match self.parse_parameter() {
                    Ok(()) => {
                        proof {
                            let s = rest.drop_first();
                            let j = brace_pos(s)->0;
                            assert(seg_views(self.tokens@) =~= t0.0 + flushed(buf).push(SegmentView::Parameter));
                            assert(str_views(self.parameters@) =~= t0.1 + seq![s.take(j)]);
                            lemma_prepend_prepend(t0.0, t0.1, flushed(buf).push(SegmentView::Parameter), seq![s.take(j)], tokenize_spec(self.rest(), Seq::empty()));
                        }
                    },
                    Err(e) => {
                        return Err(e);
                    },
                }
            } else if chr == '*' && self.peek_is('*') {
                self.flush_buffer();
                let ghost mid = self.tokens@;
                self.tokens.push(Segment::AnyAfter);
                self.index = self.index + 1;
                proof {
                    lemma_seg_views_push(mid, Segment::AnyAfter);
                    assert(rest.skip(2) == self.rest());
                    assert(seg_views(self.tokens@) =~= t0.0 + flushed(buf).push(SegmentView::AnyAfter));
                    assert(t0.1 + Seq::<Seq<char>>::empty() =~= t0.1);
                    lemma_prepend_prepend(t0.0, t0.1, flushed(buf).push(SegmentView::AnyAfter), Seq::empty(), tokenize_spec(self.rest(), Seq::empty()));
                }
            } else if chr == '*' {
                self.flush_buffer();
                let ghost mid = self.tokens@;
                self.tokens.push(Segment::Wildcard);
                proof {
                    lemma_seg_views_push(mid, Segment::Wildcard);
                    assert(seg_views(self.tokens@) =~= t0.0 + flushed(buf).push(SegmentView::Wildcard));
                    assert(t0.1 + Seq::<Seq<char>>::empty() =~= t0.1);
                    lemma_prepend_prepend(t0.0, t0.1, flushed(buf).push(SegmentView::Wildcard), Seq::empty(), tokenize_spec(self.rest(), Seq::empty()));
                }
            } else {
                push_char(&mut self.buffer, chr);
                proof {
                    assert(seg_views(self.tokens@) == t0.0);
                }
            }
        }
        proof {
            assert(self.rest().len() == 0);
        }
        let ghost t2 = self.parsed();
        let ghost buf2 = self.pending();
        self.flush_buffer();
        proof {
            assert(seg_views(self.tokens@) =~= t2.0 + flushed(buf2));
            assert(t2.1 + Seq::<Seq<char>>::empty() =~= t2.1);
        }
        Ok(())
    }

    /// The path that the segments read make up.
    pub fn into_path(self) -> (r: Path)
        ensures
            r@ == self.parsed(),
    {
        Path { segments: self.tokens, parameters: self.parameters }
    }

    fn next(&mut self) -> (c: char)
        requires
            old(self).wf(),
            old(self).index < old(self).chars.len(),
        ensures
            final(self).wf(),
            c == old(self).rest()[0],
            final(self).rest() == old(self).rest().drop_first(),
            final(self).pending() == old(self).pending(),
            final(self).tokens == old(self).tokens,
            final(self).parameters == old(self).parameters,
            final(self).chars == old(self).chars,
            final(self).index == old(self).index + 1,
    {
        let chr = self.chars[self.index];
        self.index = self.index + 1;
        proof {
            assert(old(self).rest().drop_first() =~= self.rest());
        }
        chr
    }

    fn peek_is(&self, c: char) -> (r: bool)
        requires
            self.wf(),
        ensures
            r == (self.rest().len() > 0 && self.rest()[0] == c),
    {
        self.index < self.chars.len() && self.chars[self.index] == c
    }

    fn flush_buffer(&mut self)
        requires
            old(self).wf(),
        ensures
            final(self).wf(),
            final(self).rest() == old(self).rest(),
            final(self).pending() == Seq::<char>::empty(),
            seg_views(final(self).tokens@) == seg_views(old(self).tokens@) + flushed(
                old(self).pending(),
            ),
            final(self).parameters == old(self).parameters,
            final(self).chars == old(self).chars,
            final(self).index == old(self).index,
    {
        if self.buffer.as_str().is_empty() {
            proof {
                assert(seg_views(self.tokens@) =~= seg_views(self.tokens@) + flushed(self.buffer@));
            }
            return;
        }
        let val = self.buffer.clone();
        let ghost before = self.tokens@;
        self.tokens.push(Segment::Literal(val));
        self.buffer = String::new();
        proof {
            assert(seg_views(self.tokens@) =~= seg_views(before) + flushed(old(self).buffer@));
        }
    }

    /// Reads a parameter name up to its closing bracket; the opening
    /// bracket has been read.
    fn parse_parameter(&mut self) -> (r: Result<(), PathError>)
        requires
            old(self).wf(),
            old(self).pending() == Seq::<char>::empty(),
        ensures
            final(self).wf(),
            final(self).chars == old(self).chars,
            (match brace_pos(old(self).rest()) {
                None => r == Err::<(), PathError>(PathError::UnterminatedParameter),
                Some(j) => if old(self).rest()[j] == '{' {
                    r == Err::<(), PathError>(PathError::NestedParameter)
                } else {
                    &&& r is Ok
                    &&& final(self).rest() == old(self).rest().skip(j + 1)
                    &&& final(self).pending() == Seq::<char>::empty()
                    &&& seg_views(final(self).tokens@) == seg_views(old(self).tokens@).push(
                        SegmentView::Parameter,
                    )
                    &&& str_views(final(self).parameters@) == str_views(
                        old(self).parameters@,
                    ).push(old(self).rest().take(j))
                },
            }),
    {
        let ghost rest0 = self.rest();
        let ghost start = self.index;
        proof {
            lemma_brace_pos(rest0);
        }
        while self.index < self.chars.len()
            invariant
                self.wf(),
                self.chars == old(self).chars,
                self.tokens == old(self).tokens,
                self.parameters == old(self).parameters,
                start <= self.index,
                rest0 == old(self).rest(),
                rest0 == self.chars@.skip(start as int),
                self.pending() == rest0.take(self.index - start),
                forall|k: int| 0 <= k < self.index - start ==> rest0[k] != '{' && rest0[k] != '}',
                brace_pos(rest0) matches Some(j) ==> self.index - start <= j,
                brace_pos(rest0) matches Some(j) ==> 0 <= j < rest0.len() && (rest0[j] == '{' || rest0[j] == '}'),
                brace_pos(rest0) matches Some(j) ==> forall|k: int| 0 <= k < j ==> rest0[k] != '{' && rest0[k] != '}',
                brace_pos(rest0) is None ==> forall|k: int| 0 <= k < rest0.len() ==> rest0[k] != '{' && rest0[k] != '}',
            decreases self.chars@.len() - self.index,
        {
            let ghost k = self.index - start;
            assert(rest0[k] == self.chars@[self.index as int]);
            let chr = self.next();
            if chr == '{' {
                return Err(PathError::NestedParameter);
            } else if chr == '}' {
                let name = self.buffer.clone();
                let ghost before = self.tokens@;
                self.tokens.push(Segment::Parameter);
                let ghost pbefore = self.parameters@;
                self.parameters.push(name);
                self.buffer = String::new();
                proof {
                    assert(seg_views(self.tokens@) =~= seg_views(before).push(SegmentView::Parameter));
                    assert(str_views(self.parameters@) =~= str_views(pbefore).push(rest0.take(k)));
                    assert(self.rest() =~= rest0.skip(k + 1));
                }
                return Ok(());
            } else {
                push_char(&mut self.buffer, chr);
                proof {
                    assert(self.pending() =~= rest0.take(k + 1));
                }
            }
        }
        proof {
            assert(self.index - start == rest0.len());
        }
        Err(PathError::UnterminatedParameter)
    }
}

// ---------------------------------------------------------------------------
// Parsed paths
// ---------------------------------------------------------------------------

/// A parsed route path.
/// A request path can be matched against it with [`Path::matches`].
#[derive(Debug)]
pub struct Path {
    segments: Vec<Segment>,
    parameters: Vec<String>,
}


impl View for Path {
    type V = Parsed;

    closed spec fn view(&self) -> Parsed {
        (seg_views(self.segments@), str_views(self.parameters@))
    }
}

/// The number of parameter segments.
pub open spec fn count_params(segs: Seq<SegmentView>) -> nat
    decreases segs.len(),
{
    if segs.len() == 0 {
        0
    } else if segs[0] is Parameter {
        1 + count_params(segs.drop_first())
    } else {
        count_params(segs.drop_first())
    }
}

/// Every parameter segment has a name.
pub open spec fn names_match(x: Parsed) -> bool {
    count_params(x.0) == x.1.len()
}

/// Two of parameter, wildcard and any-after stand next to each other.
pub open spec fn has_adjacent_special(segs: Seq<SegmentView>) -> bool {
    exists|i: int| #[trigger] special_pair_at(segs, i)
}

/// Segments `i - 1` and `i` are both special.
pub open spec fn special_pair_at(segs: Seq<SegmentView>, i: int) -> bool {
    1 <= i < segs.len() && is_special(segs[i - 1]) && is_special(segs[i])
}

/// The text of a route path: separators as `/`, literals as themselves,
/// parameters as `{name}`, wildcards as `*` and any-after as `**`.
pub open spec fn render(segs: Seq<SegmentView>, params: Seq<Seq<char>>) -> Seq<char>
    decreases segs.len(),
{
    if segs.len() == 0 {
        Seq::empty()
    } else {
        let rest = segs.drop_first();
        match segs[0] {
            SegmentView::Separator => seq!['/'] + render(rest, params),
            SegmentView::Literal(l) => l + render(rest, params),
            SegmentView::Parameter => seq!['{'] + params[0] + seq!['}'] + render(
                rest,
                params.drop_first(),
            ),
            SegmentView::Wildcard => seq!['*'] + render(rest, params),
            SegmentView::AnyAfter => seq!['*', '*'] + render(rest, params),
        }
    }
}

proof fn lemma_render_flushed(buf: Seq<char>, t: Seq<SegmentView>, ps: Seq<Seq<char>>)
    ensures
        render(flushed(buf) + t, ps) == buf + render(t, ps),
        count_params(flushed(buf) + t) == count_params(t),
{
    if buf.len() == 0 {
        assert(flushed(buf) + t =~= t);
        assert(buf + render(t, ps) =~= render(t, ps));
    } else {
        let s = flushed(buf) + t;
        assert(s.drop_first() =~= t);
    }
}

proof fn lemma_render_one(x: SegmentView, t: Seq<SegmentView>)
    ensures
        (seq![x] + t)[0] == x,
        (seq![x] + t).drop_first() == t,
        (seq![x] + t).len() > 0,
{
    assert((seq![x] + t).drop_first() =~= t);
}

/// What the tokenizer reads is written back by [`render`] as the text it
/// was read from, and every parameter segment gets a name.
proof fn lemma_render_tokenize(rest: Seq<char>, buf: Seq<char>)
    ensures
        tokenize_spec(rest, buf) matches Ok(x) ==> render(x.0, x.1) == buf + rest && names_match(x),
    decreases rest.len(),
{
    if rest.len() == 0 {
        lemma_render_flushed(buf, Seq::empty(), Seq::empty());
        assert(flushed(buf) + Seq::<SegmentView>::empty() =~= flushed(buf));
        assert(buf + rest =~= buf);
    } else {
        let c = rest[0];
        if c == '/' {
            let r1 = rest.drop_first();
            lemma_render_tokenize(r1, Seq::empty());
            if let Ok(y) = tokenize_spec(r1, Seq::empty()) {
                let segs = flushed(buf).push(SegmentView::Separator) + y.0;
                assert(segs =~= flushed(buf) + (seq![SegmentView::Separator] + y.0));
                lemma_render_flushed(buf, seq![SegmentView::Separator] + y.0, y.1);
                lemma_render_one(SegmentView::Separator, y.0);
                assert(Seq::<Seq<char>>::empty() + y.1 =~= y.1);
                assert(Seq::<char>::empty() + r1 =~= r1);
                assert(buf + (seq!['/'] + r1) =~= buf + rest);
            }
        } else if c == '{' {
            let s = rest.drop_first();
            lemma_brace_pos(s);
            if let Some(j) = brace_pos(s) {
                if s[j] == '}' {
                    let r1 = s.skip(j + 1);
                    lemma_render_tokenize(r1, Seq::empty());
                    if let Ok(y) = tokenize_spec(r1, Seq::empty()) {
                        let segs = flushed(buf).push(SegmentView::Parameter) + y.0;
                        let ps = seq![s.take(j)] + y.1;
                        assert(segs =~= flushed(buf) + (seq![SegmentView::Parameter] + y.0));
                        lemma_render_flushed(buf, seq![SegmentView::Parameter] + y.0, ps);
                        lemma_render_one(SegmentView::Parameter, y.0);
                        assert(ps.drop_first() =~= y.1);
                        assert(Seq::<char>::empty() + r1 =~= r1);
                        assert(seq!['{'] + s.take(j) + seq!['}'] + r1 =~= rest);
                        assert(buf + (seq!['{'] + s.take(j) + seq!['}'] + r1) =~= buf + rest);
                    }
                }
            }
        } else if c == '*' && rest.len() > 1 && rest[1] == '*' {
            let r1 = rest.skip(2);
            lemma_render_tokenize(r1, Seq::empty());
            if let Ok(y) = tokenize_spec(r1, Seq::empty()) {
                let segs = flushed(buf).push(SegmentView::AnyAfter) + y.0;
                assert(segs =~= flushed(buf) + (seq![SegmentView::AnyAfter] + y.0));
                lemma_render_flushed(buf, seq![SegmentView::AnyAfter] + y.0, y.1);
                lemma_render_one(SegmentView::AnyAfter, y.0);
                assert(Seq::<Seq<char>>::empty() + y.1 =~= y.1);
                assert(Seq::<char>::empty() + r1 =~= r1);
                assert(buf + (seq!['*', '*'] + r1) =~= buf + rest);
            }
        } else if c == '*' {
            let r1 = rest.drop_first();
            lemma_render_tokenize(r1, Seq::empty());
            if let Ok(y) = tokenize_spec(r1, Seq::empty()) {
                let segs = flushed(buf).push(SegmentView::Wildcard) + y.0;
                assert(segs =~= flushed(buf) + (seq![SegmentView::Wildcard] + y.0));
                lemma_render_flushed(buf, seq![SegmentView::Wildcard] + y.0, y.1);
                lemma_render_one(SegmentView::Wildcard, y.0);
                assert(Seq::<Seq<char>>::empty() + y.1 =~= y.1);
                assert(Seq::<char>::empty() + r1 =~= r1);
                assert(buf + (seq!['*'] + r1) =~= buf + rest);
            }
        } else {
            lemma_render_tokenize(rest.drop_first(), buf.push(c));
            assert(buf.push(c) + rest.drop_first() =~= buf + rest);
        }
    }
}

/// Writing out a parsed route path gives back the text it was parsed from.
pub proof fn lemma_render_parse(path: Seq<char>)
    ensures
        tokenize_spec(path, Seq::empty()) matches Ok(x) ==> render(x.0, x.1) == path && names_match(x),
{
    lemma_render_tokenize(path, Seq::empty());
    assert(Seq::<char>::empty() + path =~= path);
}

impl Path {
    /// Parse a raw path string into a `Path`.
    /// Fails if the path does not tokenize, or if two of parameter, wildcard
    /// and any-after segments stand next to each other.
    pub fn new(path: &str) -> (r: Result<Path, Error>)
        ensures
            match tokenize_spec(path@, Seq::empty()) {
                Err(e) => r matches Err(Error::Startup(StartupError::Path { error, route }))
                    && error == e && route@ == path@,
                Ok(x) => if has_adjacent_special(x.0) {
                    r matches Err(Error::Startup(StartupError::Path { error, route }))
                        && error == PathError::AmbiguousPath && route@ == path@
                } else {
                    r matches Ok(p) && p@ == x
                },
            },
    {
        let mut tokenizer = Tokenizer::new(path);
        proof {
            lemma_prepend_empty(tokenize_spec(path@, Seq::empty()));
        }
        match tokenizer.tokenize() {
            Ok(()) => {},
            Err(e) => {
                return Err(Error::Startup(StartupError::Path { error: e, route: String::from_str(path) }));
            },
        }
        let p = tokenizer.into_path();
        proof {
            lemma_render_parse(path@);
        }
        let ghost segs = p@.0;
        let mut last_special = false;
        let mut i: usize = 0;
        while i < p.segments.len()
            invariant
                segs == p@.0,
                tokenize_spec(path@, Seq::empty()) == Ok::<Parsed, PathError>(p@),
                names_match(p@),
                render(p@.0, p@.1) == path@,
                i <= segs.len(),
                segs.len() == p.segments@.len(),
                last_special == (i > 0 && is_special(segs[i - 1])),
                forall|k: int| k < i ==> !#[trigger] special_pair_at(segs, k),
            decreases p.segments.len() - i,
        {
            assert(segs[i as int] == p.segments@[i as int]@);
            let special = p.segments[i].disallow_adjacent();
            if last_special && special {
                assert(special_pair_at(segs, i as int));
                let route = p.to_string();
                return Err(Error::Startup(StartupError::Path { error: PathError::AmbiguousPath, route }));
            }
            last_special = special;
            i = i + 1;
        }
        Ok(p)
    }

    /// The text of the route path.
    pub fn to_string(&self) -> (r: String)
        requires
            names_match(self@),
        ensures
            r@ == render(self@.0, self@.1),
    {
        let ghost sv = self@.0;
        let ghost pv = self@.1;
        let mut out = String::new();
        let mut pi: usize = 0;
        let mut i: usize = 0;
        proof {
            assert(sv.skip(0) =~= sv);
            assert(pv.skip(0) =~= pv);
        }
        while i < self.segments.len()
            invariant
                sv == self@.0,
                pv == self@.1,
                sv.len() == self.segments@.len(),
                pv.len() == self.parameters@.len(),
                i <= sv.len(),
                pi <= pv.len(),
                pi + count_params(sv.skip(i as int)) == pv.len(),
                out@ + render(sv.skip(i as int), pv.skip(pi as int)) == render(sv, pv),
            decreases self.segments.len() - i,
        {
            let ghost rs = sv.skip(i as int);
            let ghost rp = pv.skip(pi as int);
            let ghost before = out@;
            assert(rs[0] == self.segments@[i as int]@);
            assert(rs.drop_first() =~= sv.skip(i + 1));
            match &self.segments[i] {
                Segment::Separator => {
                    push_char(&mut out, '/');
                    assert(out@ =~= before + seq!['/']);
                },
                Segment::Literal(l) => {
                    push_str(&mut out, l.as_str());
                },
                Segment::Parameter => {
                    assert(count_params(rs) == 1 + count_params(rs.drop_first()));
                    assert(pi < self.parameters.len());
                    assert(rp[0] == self.parameters@[pi as int]@);
                    assert(rp.drop_first() =~= pv.skip(pi + 1));
                    push_char(&mut out, '{');
                    push_str(&mut out, self.parameters[pi].as_str());
                    push_char(&mut out, '}');
                    assert(out@ =~= before + (seq!['{'] + rp[0] + seq!['}']));
                    pi = pi + 1;
                },
                Segment::Wildcard => {
                    push_char(&mut out, '*');
                    assert(out@ =~= before + seq!['*']);
                },
                Segment::AnyAfter => {
                    push_char(&mut out, '*');
                    push_char(&mut out, '*');
                    assert(out@ =~= before + seq!['*', '*']);
                },
            }
            i = i + 1;
        }
        proof {
            assert(render(sv.skip(i as int), pv.skip(pi as int)) =~= Seq::<char>::empty());
            assert(out@ + Seq::<char>::empty() =~= out@);
        }
        out
    }
}


// ---------------------------------------------------------------------------
// Matching
// ---------------------------------------------------------------------------

/// The UTF-8 length of a text, as `str::len` gives it.
pub open spec fn byte_len(s: Seq<char>) -> int {
    (encode_utf8(s).len() as usize) as int
}

/// The index of the first separator at or after `from`, or the length of the path.
pub open spec fn next_sep(path: Seq<char>, from: int) -> int
    decreases path.len() - from,
{
    if from >= path.len() {
        path.len() as int
    } else if path[from] == '/' {
        from
    } else {
        next_sep(path, from + 1)
    }
}

/// Where the text matched by a wildcard or a parameter ends.
pub enum Around {
    /// It ends at this index.
    At(int),
    /// Nothing fits.
    Missing,
    /// The matcher fails on this input (an index leaves the path).
    Fails,
}

/// Looks for the literal `lit`, whose UTF-8 length is `blen`, from index `i`
/// down to `lo`: the windows of `blen` characters are compared with `lit`.
pub open spec fn search_back(path: Seq<char>, lit: Seq<char>, blen: int, i: int, lo: int) -> Around
    decreases i - lo + 1,
{
    if i < lo {
        Around::Missing
    } else if i + blen > path.len() {
        Around::Fails
    } else if blen == lit.len() && path.subrange(i, i + blen) == lit {
        Around::At(i)
    } else if i == 0 {
        Around::Fails
    } else {
        search_back(path, lit, blen, i - 1, lo)
    }
}

/// Where the wildcard or parameter at segment `k` stops when it starts at
/// `pi`: before the last occurrence of a following literal that does not
/// pass a separator, or else at the next separator.
pub open spec fn around(segs: Seq<SegmentView>, k: int, path: Seq<char>, pi: int) -> Around {
    if k + 1 < segs.len() {
        match segs[k + 1] {
            SegmentView::Literal(l) => {
                let ns = next_sep(path, pi);
                let b = byte_len(l);
                search_back(path, l, b, if ns >= b { ns - b } else { 0 }, pi)
            },
            SegmentView::Separator => Around::At(next_sep(path, pi)),
            _ => Around::Fails,
        }
    } else {
        Around::At(next_sep(path, pi))
    }
}

/// The result of matching a path against a route.
pub enum MatchOutcome {
    /// The path matches; the character ranges of the parameters, in order.
    Matched(Seq<(int, int)>),
    /// The path does not match.
    NoMatch,
    /// The matcher fails on this input.
    Panics,
}

/// Matching `path` from index `pi` against the segments from `k` on, with
/// the parameter ranges `acc` found so far.
pub open spec fn match_spec(
    segs: Seq<SegmentView>,
    k: int,
    path: Seq<char>,
    pi: int,
    acc: Seq<(int, int)>,
) -> MatchOutcome
    decreases segs.len() - k,
{
    if k >= segs.len() {
        if pi >= path.len() {
            MatchOutcome::Matched(acc)
        } else {
            MatchOutcome::NoMatch
        }
    } else {
        match segs[k] {
            SegmentView::Literal(l) => {
                if 0 <= pi && pi + l.len() <= path.len() && path.subrange(pi, pi + l.len()) == l {
                    match_spec(segs, k + 1, path, pi + l.len(), acc)
                } else {
                    MatchOutcome::NoMatch
                }
            },
            SegmentView::Separator => {
                if 0 <= pi < path.len() && path[pi] == '/' {
                    match_spec(segs, k + 1, path, pi + 1, acc)
                } else {
                    MatchOutcome::NoMatch
                }
            },
            SegmentView::Wildcard => match around(segs, k, path, pi) {
                Around::At(e) => match_spec(segs, k + 1, path, e, acc),
                Around::Missing => MatchOutcome::NoMatch,
                Around::Fails => MatchOutcome::Panics,
            },
            SegmentView::Parameter => match around(segs, k, path, pi) {
                Around::At(e) => match_spec(segs, k + 1, path, e, acc.push((pi, e))),
                Around::Missing => MatchOutcome::NoMatch,
                Around::Fails => MatchOutcome::Panics,
            },
            SegmentView::AnyAfter => MatchOutcome::Matched(acc),
        }
    }
}

/// The outcome of matching a whole path against a route.
pub open spec fn route_match(segs: Seq<SegmentView>, path: Seq<char>) -> MatchOutcome {
    match_spec(segs, 0, path, 0, Seq::empty())
}

/// The character ranges held by a list of ranges.
pub open spec fn ranges_view(v: Seq<Range<usize>>) -> Seq<(int, int)> {
    v.map_values(|r: Range<usize>| (r.start as int, r.end as int))
}

proof fn lemma_next_sep_bounds(path: Seq<char>, from: int)
    requires
        0 <= from <= path.len(),
    ensures
        from <= next_sep(path, from) <= path.len(),
    decreases path.len() - from,
{
    if from < path.len() && path[from] != '/' {
        lemma_next_sep_bounds(path, from + 1);
    }
}

proof fn lemma_search_back_bounds(path: Seq<char>, lit: Seq<char>, blen: int, i: int, lo: int)
    ensures
        search_back(path, lit, blen, i, lo) matches Around::At(e) ==> lo <= e <= i && e + blen <= path.len(),
    decreases i - lo + 1,
{
    if i >= lo && i + blen <= path.len() && !(blen == lit.len() && path.subrange(i, i + blen) == lit) && i != 0 {
        lemma_search_back_bounds(path, lit, blen, i - 1, lo);
    }
}

/// Matches request paths against the segments of a route.
pub struct Matcher<'a> {
    segments: &'a [Segment],
    path: Vec<char>,
    seg_index: usize,
    path_index: usize,
    params: Option<Vec<Range<usize>>>,
}

impl<'a> Matcher<'a> {
    pub closed spec fn wf(&self) -> bool {
        &&& self.seg_index <= self.segments@.len()
        &&& self.path_index <= self.path@.len()
        &&& self.params is Some
    }

    /// What matching from the current state gives.
    pub closed spec fn outcome(&self) -> MatchOutcome {
        match_spec(
            seg_views(self.segments@),
            self.seg_index as int,
            self.path@,
            self.path_index as int,
            ranges_view(self.params->0@),
        )
    }

    /// A matcher of `path` against `route`, at the start of both.
    pub fn new(route: &'a Path, path: &'a str) -> (r: Matcher<'a>)
        ensures
            r.wf(),
            r.outcome() == route_match(route@.0, path@),
    {
        let m = Matcher {
            segments: route.segments.as_slice(),
            path: chars_of(path),
            seg_index: 0,
            path_index: 0,
            params: Some(Vec::new()),
        };
        assert(ranges_view(m.params->0@) =~= Seq::<(int, int)>::empty());
        m
    }

    /// Match the path against the route: the ranges of the parameters if it
    /// matches, none if it does not.
    pub fn matches(&mut self) -> (r: Option<Vec<Range<usize>>>)
        requires
            old(self).wf(),
            !(old(self).outcome() is Panics),
        ensures
            match old(self).outcome() {
                MatchOutcome::Matched(rs) => r matches Some(v) && ranges_view(v@) == rs,
                _ => r is None,
            },
    {
        while self.seg_index < self.segments.len()
            invariant
                self.wf(),
                self.outcome() == old(self).outcome(),
                !(self.outcome() is Panics),
            decreases self.segments@.len() - self.seg_index,
        {
            let segs = self.segments;
            let ghost sv = seg_views(segs@);
            assert(sv[self.seg_index as int] == segs@[self.seg_index as int]@);
            match &segs[self.seg_index] {
                Segment::Literal(l) => {
                    if self.take_str(l.as_str()).is_none() {
                        return None;
                    }
                },
                Segment::Separator => {
                    if self.take('/').is_none() {
                        return None;
                    }
                },
                Segment::Wildcard => {
                    if self.match_wildcard().is_none() {
                        return None;
                    }
                },
                Segment::Parameter => {
                    if self.match_parameter().is_none() {
                        return None;
                    }
                },
                Segment::AnyAfter => {
                    return self.params.take();
                },
            }
            self.seg_index = self.seg_index + 1;
        }
        if self.path_index >= self.path.len() {
            return self.params.take();
        }
        None
    }

    fn take(&mut self, value: char) -> (r: Option<()>)
        requires
            old(self).wf(),
        ensures
            final(self).wf(),
            final(self).segments == old(self).segments,
            final(self).path == old(self).path,
            final(self).seg_index == old(self).seg_index,
            final(self).params == old(self).params,
            r is Some <==> old(self).path_index < old(self).path@.len()
                && old(self).path@[old(self).path_index as int] == value,
            r is Some ==> final(self).path_index == old(self).path_index + 1,
    {
        if self.path_index >= self.path.len() || self.path[self.path_index] != value {
            return None;
        }
        self.path_index = self.path_index + 1;
        Some(())
    }

    fn take_str(&mut self, values: &str) -> (r: Option<()>)
        requires
            old(self).wf(),
        ensures
            final(self).wf(),
            final(self).segments == old(self).segments,
            final(self).path == old(self).path,
            final(self).seg_index == old(self).seg_index,
            final(self).params == old(self).params,
            r is Some <==> old(self).path_index + values@.len() <= old(self).path@.len()
                && old(self).path@.subrange(
                old(self).path_index as int,
                old(self).path_index + values@.len(),
            ) == values@,
            r is Some ==> final(self).path_index == old(self).path_index + values@.len(),
    {
        let v = chars_of(values);
        let ghost p0 = self.path_index as int;
        let mut j: usize = 0;
        while self.path_index < self.path.len()
            invariant
                self.wf(),
                self.segments == old(self).segments,
                self.path == old(self).path,
                self.seg_index == old(self).seg_index,
                self.params == old(self).params,
                p0 == old(self).path_index,
                v@ == values@,
                j <= v@.len(),
                self.path_index == p0 + j,
                self.path@.subrange(p0, self.path_index as int) == v@.take(j as int),
            decreases self.path@.len() - self.path_index,
        {
            if j >= v.len() {
                assert(v@.take(j as int) =~= v@);
                return Some(());
            }
            if self.path[self.path_index] != v[j] {
                proof {
                    if p0 + v@.len() <= self.path@.len() && self.path@.subrange(p0, p0 + v@.len()) == v@ {
                        assert(self.path@.subrange(p0, p0 + v@.len())[j as int] == self.path@[self.path_index as int]);
                    }
                }
                return None;
            }
            proof {
                assert(self.path@.subrange(p0, self.path_index + 1) =~= v@.take(j + 1));
            }
            self.path_index = self.path_index + 1;
            j = j + 1;
        }
        if j >= v.len() {
            assert(v@.take(j as int) =~= v@);
            Some(())
        } else {
            None
        }
    }

    fn next_separator(&self) -> (r: usize)
        requires
            self.wf(),
        ensures
            r == next_sep(self.path@, self.path_index as int),
            self.path_index <= r <= self.path@.len(),
    {
        let mut i = self.path_index;
        while i < self.path.len()
            invariant
                self.wf(),
                self.path_index <= i <= self.path@.len(),
                next_sep(self.path@, self.path_index as int) == next_sep(self.path@, i as int),
            decreases self.path@.len() - i,
        {
            if self.path[i] == '/' {
                return i;
            }
            i = i + 1;
        }
        i
    }

    fn match_wildcard(&mut self) -> (r: Option<()>)
        requires
            old(self).wf(),
            old(self).seg_index < old(self).segments@.len(),
            !(around(seg_views(old(self).segments@), old(self).seg_index as int, old(self).path@, old(self).path_index as int) is Fails),
        ensures
            final(self).wf(),
            final(self).segments == old(self).segments,
            final(self).path == old(self).path,
            final(self).seg_index == old(self).seg_index,
            final(self).params == old(self).params,
            match around(seg_views(old(self).segments@), old(self).seg_index as int, old(self).path@, old(self).path_index as int) {
                Around::At(e) => r is Some && final(self).path_index == e,
                _ => r is None,
            },
    {
        let range = match self.match_around() {
            Some(r) => r,
            None => return None,
        };
        self.path_index = range.end;
        Some(())
    }

    fn match_parameter(&mut self) -> (r: Option<()>)
        requires
            old(self).wf(),
            old(self).seg_index < old(self).segments@.len(),
            !(around(seg_views(old(self).segments@), old(self).seg_index as int, old(self).path@, old(self).path_index as int) is Fails),
        ensures
            final(self).wf(),
            final(self).segments == old(self).segments,
            final(self).path == old(self).path,
            final(self).seg_index == old(self).seg_index,
            match around(seg_views(old(self).segments@), old(self).seg_index as int, old(self).path@, old(self).path_index as int) {
                Around::At(e) => r is Some && final(self).path_index == e
                    && ranges_view(final(self).params->0@) == ranges_view(old(self).params->0@).push(
                    (old(self).path_index as int, e),
                ),
                _ => r is None,
            },
    {
        let range = match self.match_around() {
            Some(r) => r,
            None => return None,
        };
        self.path_index = range.end;
        let mut ps = match self.params.take() {
            Some(v) => v,
            None => Vec::new(),
        };
        let ghost before = ps@;
        ps.push(range);
        self.params = Some(ps);
        assert(ranges_view(self.params->0@) =~= ranges_view(before).push((old(self).path_index as int, range.end as int)));
        Some(())
    }

    // Find the last occurrence of the next literal without passing any separators.
    fn match_around(&self) -> (r: Option<Range<usize>>)
        requires
            self.wf(),
            self.seg_index < self.segments@.len(),
            !(around(seg_views(self.segments@), self.seg_index as int, self.path@, self.path_index as int) is Fails),
        ensures
            match around(seg_views(self.segments@), self.seg_index as int, self.path@, self.path_index as int) {
                Around::At(e) => r matches Some(rg) && rg.start == self.path_index && rg.end == e
                    && self.path_index <= e <= self.path@.len(),
                _ => r is None,
            },
    {
        let ghost sv = seg_views(self.segments@);
        let ns = self.next_separator();
        if self.segments.len() - self.seg_index > 1 {
            let segs = self.segments;
            assert(sv[self.seg_index + 1] == segs@[self.seg_index + 1]@);
            match &segs[self.seg_index + 1] {
                Segment::Literal(l) => {
                    let chars = chars_of(l.as_str());
                    let blen = l.as_str().len();
                    let mut i: usize = if ns >= blen { ns - blen } else { 0 };
                    let ghost target = search_back(self.path@, l@, blen as int, i as int, self.path_index as int);
                    proof {
                        lemma_search_back_bounds(self.path@, l@, blen as int, i as int, self.path_index as int);
                    }
                    loop
                        invariant
                            self.wf(),
                            chars@ == l@,
                            blen as int == byte_len(l@),
                            target == search_back(self.path@, l@, blen as int, i as int, self.path_index as int),
                            target == around(seg_views(self.segments@), self.seg_index as int, self.path@, self.path_index as int),
                            !(target is Fails),
                            target matches Around::At(e) ==> self.path_index <= e && e + blen <= self.path@.len(),
                        decreases i,
                    {
                        if i < self.path_index {
                            return None;
                        }
                        if blen == chars.len() && matches_at(self.path.as_slice(), i, chars.as_slice()) {
                            assert(self.path@.skip(i as int).take(blen as int) =~= self.path@.subrange(i as int, i + blen));
                            return Some(Range { start: self.path_index, end: i });
                        }
                        proof {
                            if blen == chars.len() && self.path@.subrange(i as int, i + blen) == l@ {
                                assert(self.path@.skip(i as int).take(blen as int) =~= self.path@.subrange(i as int, i + blen));
                            }
                        }
                        i = i - 1;
                    }
                },
                Segment::Separator => {
                    return Some(Range { start: self.path_index, end: ns });
                },
                _ => {
                    return None;
                },
            }
        } else {
            Some(Range { start: self.path_index, end: ns })
        }
    }
}


// ---------------------------------------------------------------------------
// Parameters
// ---------------------------------------------------------------------------

/// A container for path parameters: the character ranges of their values in
/// the matched path, and the names of the route's parameters.
#[derive(Debug)]
pub struct PathParameters {
    params: Vec<Range<usize>>,
    names: Vec<String>,
}

impl View for PathParameters {
    type V = (Seq<(int, int)>, Seq<Seq<char>>);

    closed spec fn view(&self) -> (Seq<(int, int)>, Seq<Seq<char>>) {
        (ranges_view(self.params@), str_views(self.names@))
    }
}

/// The index of the first occurrence of `key` in `names`.
pub open spec fn position_of(names: Seq<Seq<char>>, key: Seq<char>) -> Option<int>
    decreases names.len(),
{
    if names.len() == 0 {
        None
    } else if names[0] == key {
        Some(0)
    } else {
        match position_of(names.drop_first(), key) {
            Some(i) => Some(i + 1),
            None => None,
        }
    }
}

proof fn lemma_position_of(names: Seq<Seq<char>>, key: Seq<char>)
    ensures
        position_of(names, key) matches Some(i) ==> 0 <= i < names.len() && names[i] == key
            && forall|k: int| 0 <= k < i ==> names[k] != key,
        position_of(names, key) is None ==> forall|k: int| 0 <= k < names.len() ==> names[k] != key,
    decreases names.len(),
{
    if names.len() > 0 && names[0] != key {
        lemma_position_of(names.drop_first(), key);
        assert forall|k: int| 1 <= k < names.len() implies names[k] == names.drop_first()[k - 1] by {}
    }
}

/// The bytes of the parameter at index `i` of `params` in `path`.
pub open spec fn param_at(path: Seq<char>, params: (Seq<(int, int)>, Seq<Seq<char>>), i: int) -> Seq<u8> {
    encode_utf8(path).subrange(params.0[i].0, params.0[i].1)
}

/// The bytes of the parameter called `name` in `path`: the first of that name.
pub open spec fn param_named(path: Seq<char>, params: (Seq<(int, int)>, Seq<Seq<char>>), name: Seq<char>) -> Option<
    Seq<u8>,
> {
    match position_of(params.1, name) {
        Some(i) => Some(param_at(path, params, i)),
        None => None,
    }
}

/// A byte range of `path` that a slice can be taken of: in order, and on
/// character boundaries.
pub open spec fn sliceable(path: Seq<char>, range: (int, int)) -> bool {
    &&& range.0 <= range.1
    &&& is_char_boundary(encode_utf8(path), range.0)
    &&& is_char_boundary(encode_utf8(path), range.1)
}

proof fn lemma_prefix_boundary(b: Seq<u8>, s: int, e: int)
    requires
        valid_utf8(b),
        0 <= s <= e,
        is_char_boundary(b, s),
        is_char_boundary(b, e),
    ensures
        e <= b.len(),
        valid_utf8(b.subrange(0, e)),
        is_char_boundary(b.subrange(0, e), s),
{
    reveal_with_fuel(is_char_boundary, 1);
    assert(e <= b.len());
    valid_utf8_split(b, e);
    let p = b.subrange(0, e);
    if s == e {
        is_char_boundary_start_end_of_seq(p);
    } else {
        is_char_boundary_iff_not_is_continuation_byte(b, s);
        is_char_boundary_iff_not_is_continuation_byte(p, s);
    }
}

/// `&path[start..end]`.
fn byte_slice<'a>(path: &'a str, start: usize, end: usize) -> (r: &'a str)
    requires
        sliceable(path@, (start as int, end as int)),
    ensures
        r.spec_bytes() == path.spec_bytes().subrange(start as int, end as int),
{
    proof {
        encode_utf8_valid_utf8(path@);
        lemma_prefix_boundary(path.spec_bytes(), start as int, end as int);
    }
    let (head, _) = path.split_at(end);
    let (_, mid) = head.split_at(start);
    assert(mid.spec_bytes() =~= path.spec_bytes().subrange(start as int, end as int));
    mid
}

impl PathParameters {
    /// Get a parameter by name (case sensitive) from the path that was matched.
    pub fn get<'a>(&self, key: &str, path: &'a str) -> (r: Option<&'a str>)
        requires
            position_of(self@.1, key@) matches Some(i) ==> i < self@.0.len() && sliceable(
                path@,
                self@.0[i],
            ),
        ensures
            match position_of(self@.1, key@) {
                None => r is None,
                Some(i) => r matches Some(v) && v.spec_bytes() == path.spec_bytes().subrange(
                    self@.0[i].0,
                    self@.0[i].1,
                ),
            },
    {
        proof {
            lemma_position_of(self@.1, key@);
        }
        let mut i: usize = 0;
        while i < self.names.len()
            invariant
                i <= self.names@.len(),
                forall|k: int| 0 <= k < i ==> self@.1[k] != key@,
                position_of(self@.1, key@) matches Some(j) ==> 0 <= j < self@.1.len() && self@.1[j] == key@
                    && forall|k: int| 0 <= k < j ==> self@.1[k] != key@,
                position_of(self@.1, key@) is None ==> forall|k: int| 0 <= k < self@.1.len() ==> self@.1[k] != key@,
                position_of(self@.1, key@) matches Some(j) ==> j < self@.0.len() && sliceable(path@, self@.0[j]),
            decreases self.names.len() - i,
        {
            assert(self@.1[i as int] == self.names@[i as int]@);
            if str_eq(self.names[i].as_str(), key) {
                assert(self@.0[i as int] == (self.params@[i as int].start as int, self.params@[i as int].end as int));
                let range = &self.params[i];
                return Some(byte_slice(path, range.start, range.end));
            }
            i = i + 1;
        }
        None
    }

    /// Get a parameter by its index among the route's parameters.
    pub fn get_index<'a>(&self, index: usize, path: &'a str) -> (r: Option<&'a str>)
        requires
            index < self@.0.len(),
            sliceable(path@, self@.0[index as int]),
        ensures
            r matches Some(v) && v.spec_bytes() == path.spec_bytes().subrange(
                self@.0[index as int].0,
                self@.0[index as int].1,
            ),
    {
        let range = &self.params[index];
        Some(byte_slice(path, range.start, range.end))
    }
}

impl Path {
    /// Try to match a path against this route: the parameters if it
    /// matches, none if it does not.
    pub fn matches(&self, path: &str) -> (r: Option<PathParameters>)
        requires
            !(route_match(self@.0, path@) is Panics),
        ensures
            match route_match(self@.0, path@) {
                MatchOutcome::Matched(rs) => r matches Some(pp) && pp@ == (rs, self@.1),
                _ => r is None,
            },
    {
        let mut matcher = Matcher::new(self, path);
        let names = clone_strings(&self.parameters);
        assert(str_views(names@) =~= self@.1);
        match matcher.matches() {
            Some(params) => Some(PathParameters { params, names }),
            None => None,
        }
    }
}


// ---------------------------------------------------------------------------
// Routes that can always be matched
// ---------------------------------------------------------------------------

proof fn lemma_search_back_no_fail(path: Seq<char>, lit: Seq<char>, blen: int, i: int, lo: int)
    requires
        1 <= lo,
        blen >= 0,
        i < lo || i + blen <= path.len(),
    ensures
        !(search_back(path, lit, blen, i, lo) is Fails),
    decreases i - lo + 1,
{
    if i >= lo && !(blen == lit.len() && path.subrange(i, i + blen) == lit) {
        lemma_search_back_no_fail(path, lit, blen, i - 1, lo);
    }
}

proof fn lemma_around_no_fail(segs: Seq<SegmentView>, k: int, path: Seq<char>, pi: int)
    requires
        1 <= pi <= path.len(),
        k + 1 < segs.len() ==> !is_special(segs[k + 1]),
    ensures
        !(around(segs, k, path, pi) is Fails),
        around(segs, k, path, pi) matches Around::At(e) ==> pi <= e <= path.len(),
{
    lemma_next_sep_bounds(path, pi);
    if k + 1 < segs.len() {
        if let SegmentView::Literal(l) = segs[k + 1] {
            let ns = next_sep(path, pi);
            let b = byte_len(l);
            let start = if ns >= b { ns - b } else { 0 };
            lemma_search_back_no_fail(path, l, b, start, pi);
            lemma_search_back_bounds(path, l, b, start, pi);
        }
    }
}

proof fn lemma_match_no_panic(
    segs: Seq<SegmentView>,
    k: int,
    path: Seq<char>,
    pi: int,
    acc: Seq<(int, int)>,
)
    requires
        1 <= pi <= path.len(),
        0 <= k,
        !has_adjacent_special(segs),
    ensures
        !(match_spec(segs, k, path, pi, acc) is Panics),
    decreases segs.len() - k,
{
    if k < segs.len() {
        if is_special(segs[k]) && k + 1 < segs.len() && is_special(segs[k + 1]) {
            assert(special_pair_at(segs, k + 1));
        }
        match segs[k] {
            SegmentView::Literal(l) => {
                if pi + l.len() <= path.len() && path.subrange(pi, pi + l.len()) == l {
                    lemma_match_no_panic(segs, k + 1, path, pi + l.len(), acc);
                }
            },
            SegmentView::Separator => {
                if pi < path.len() && path[pi] == '/' {
                    lemma_match_no_panic(segs, k + 1, path, pi + 1, acc);
                }
            },
            SegmentView::Wildcard => {
                lemma_around_no_fail(segs, k, path, pi);
                if let Around::At(e) = around(segs, k, path, pi) {
                    lemma_match_no_panic(segs, k + 1, path, e, acc);
                }
            },
            SegmentView::Parameter => {
                lemma_around_no_fail(segs, k, path, pi);
                if let Around::At(e) = around(segs, k, path, pi) {
                    lemma_match_no_panic(segs, k + 1, path, e, acc.push((pi, e)));
                }
            },
            SegmentView::AnyAfter => {},
        }
    }
}

/// A route that starts with a separator and has no two adjacent special
/// segments (as [`Path::new`] accepts) can be matched against every path.
pub proof fn lemma_rooted_route_matches(segs: Seq<SegmentView>, path: Seq<char>)
    requires
        segs.len() > 0,
        segs[0] is Separator,
        !has_adjacent_special(segs),
    ensures
        !(route_match(segs, path) is Panics),
{
    if path.len() > 0 && path[0] == '/' {
        lemma_match_no_panic(segs, 1, path, 1, Seq::empty());
    }
}

impl Path {
    /// Whether the route can be matched against every path: it starts with a
    /// separator, and no two of parameter, wildcard and any-after segments
    /// stand side by side.
    pub fn matchable(&self) -> (r: bool)
        ensures
            r == (self@.0.len() > 0 && self@.0[0] is Separator && !has_adjacent_special(self@.0)),
            r ==> forall|path: Seq<char>| !(#[trigger] route_match(self@.0, path) is Panics),
    {
        let ghost segs = self@.0;
        assert(segs.len() == self.segments@.len());
        if self.segments.len() == 0 {
            return false;
        }
        assert(segs[0] == self.segments@[0]@);
        match &self.segments[0] {
            Segment::Separator => {},
            _ => {
                return false;
            },
        }
        let mut i: usize = 1;
        while i < self.segments.len()
            invariant
                1 <= i <= self.segments@.len(),
                segs == self@.0,
                segs.len() == self.segments@.len(),
                forall|j: int| 1 <= j < i ==> !special_pair_at(segs, j),
            decreases self.segments.len() - i,
        {
            assert(segs[i - 1] == self.segments@[i - 1]@ && segs[i as int] == self.segments@[i as int]@);
            if self.segments[i - 1].disallow_adjacent() && self.segments[i].disallow_adjacent() {
                assert(special_pair_at(segs, i as int));
                return false;
            }
            i = i + 1;
        }
        proof {
            assert forall|path: Seq<char>| !(#[trigger] route_match(segs, path) is Panics) by {
                lemma_rooted_route_matches(segs, path);
            }
        }
        true
    }
}

/// A route text that starts with `/` parses, when it parses, into segments
/// that start with a separator.
pub proof fn lemma_rooted_route_parse(route: Seq<char>)
    requires
        route.len() > 0,
        route[0] == '/',
    ensures
        tokenize_spec(route, Seq::empty()) matches Ok(x) ==> x.0.len() > 0 && x.0[0] is Separator,
{
    if let Ok(y) = tokenize_spec(route.drop_first(), Seq::empty()) {
        let segs = flushed(Seq::<char>::empty()).push(SegmentView::Separator) + y.0;
        assert(segs[0] == SegmentView::Separator);
    }
}

/// Every range in `rs` lies within a path of length `len`.
pub open spec fn ranges_within(rs: Seq<(int, int)>, len: int) -> bool {
    forall|i: int| 0 <= i < rs.len() ==> 0 <= #[trigger] rs[i].0 <= rs[i].1 <= len
}

proof fn lemma_around_bounds(segs: Seq<SegmentView>, k: int, path: Seq<char>, pi: int)
    requires
        0 <= pi <= path.len(),
    ensures
        around(segs, k, path, pi) matches Around::At(e) ==> pi <= e <= path.len(),
{
    lemma_next_sep_bounds(path, pi);
    if k + 1 < segs.len() {
        match segs[k + 1] {
            SegmentView::Literal(l) => {
                let ns = next_sep(path, pi);
                let b = byte_len(l);
                lemma_search_back_bounds(path, l, b, if ns >= b { ns - b } else { 0 }, pi);
            },
            _ => {},
        }
    }
}

proof fn lemma_match_ranges(segs: Seq<SegmentView>, k: int, path: Seq<char>, pi: int, acc: Seq<(int, int)>)
    requires
        0 <= pi <= path.len(),
        ranges_within(acc, path.len() as int),
    ensures
        match_spec(segs, k, path, pi, acc) matches MatchOutcome::Matched(rs) ==> ranges_within(
            rs,
            path.len() as int,
        ),
    decreases segs.len() - k,
{
    if k < segs.len() {
        lemma_around_bounds(segs, k, path, pi);
        match segs[k] {
            SegmentView::Literal(l) => {
                if 0 <= pi && pi + l.len() <= path.len() && path.subrange(pi, pi + l.len()) == l {
                    lemma_match_ranges(segs, k + 1, path, pi + l.len(), acc);
                }
            },
            SegmentView::Separator => {
                if 0 <= pi < path.len() && path[pi] == '/' {
                    lemma_match_ranges(segs, k + 1, path, pi + 1, acc);
                }
            },
            SegmentView::Wildcard => match around(segs, k, path, pi) {
                Around::At(e) => lemma_match_ranges(segs, k + 1, path, e, acc),
                _ => {},
            },
            SegmentView::Parameter => match around(segs, k, path, pi) {
                Around::At(e) => {
                    let acc2 = acc.push((pi, e));
                    assert forall|i: int| 0 <= i < acc2.len() implies 0 <= #[trigger] acc2[i].0 <= acc2[i].1
                        <= path.len() by {
                        if i < acc.len() {
                            assert(acc2[i] == acc[i]);
                        }
                    }
                    lemma_match_ranges(segs, k + 1, path, e, acc2);
                },
                _ => {},
            },
            SegmentView::AnyAfter => {},
        }
    }
}

/// In a path of ASCII characters, every index from 0 to its length is a
/// character boundary of its UTF-8 bytes.
proof fn lemma_ascii_boundary(path: Seq<char>, i: int)
    requires
        is_ascii_chars(path),
        0 <= i <= path.len(),
    ensures
        is_char_boundary(encode_utf8(path), i),
{
    let b = encode_utf8(path);
    is_ascii_chars_encode_utf8(path);
    encode_utf8_valid_utf8(path);
    is_char_boundary_start_end_of_seq(b);
    if i < path.len() {
        assert(path[i] as u8 == b[i]);
        is_char_boundary_iff_is_leading_byte(b, i);
    }
}

/// When an ASCII path matches a route, each parameter it gives is a range
/// of the path that can be sliced out, so reading a parameter never fails.
pub proof fn lemma_ascii_params_sliceable(segs: Seq<SegmentView>, path: Seq<char>)
    requires
        is_ascii_chars(path),
        route_match(segs, path) is Matched,
    ensures
        route_match(segs, path) matches MatchOutcome::Matched(rs) && forall|i: int|
            0 <= i < rs.len() ==> #[trigger] sliceable(path, rs[i]),
{
    lemma_match_ranges(segs, 0, path, 0, Seq::empty());
    if let MatchOutcome::Matched(rs) = route_match(segs, path) {
        assert forall|i: int| 0 <= i < rs.len() implies #[trigger] sliceable(path, rs[i]) by {
            assert(0 <= rs[i].0 <= rs[i].1 <= path.len());
            lemma_ascii_boundary(path, rs[i].0);
            lemma_ascii_boundary(path, rs[i].1);
        }
    }
}

/// The route has only separators and literal text.
pub open spec fn literal_route(segs: Seq<SegmentView>) -> bool {
    forall|i: int| 0 <= i < segs.len() ==> (#[trigger] segs[i] is Separator || segs[i] is Literal)
}

proof fn lemma_match_own_text(
    segs: Seq<SegmentView>,
    k: int,
    params: Seq<Seq<char>>,
    prefix: Seq<char>,
    acc: Seq<(int, int)>,
)
    requires
        0 <= k <= segs.len(),
        literal_route(segs),
    ensures
        match_spec(segs, k, prefix + render(segs.skip(k), params), prefix.len() as int, acc)
            == MatchOutcome::Matched(acc),
    decreases segs.len() - k,
{
    let path = prefix + render(segs.skip(k), params);
    if k < segs.len() {
        let rest = segs.skip(k);
        assert(rest[0] == segs[k]);
        assert(rest.drop_first() =~= segs.skip(k + 1));
        let tail = render(segs.skip(k + 1), params);
        match segs[k] {
            SegmentView::Separator => {
                assert(render(rest, params) == seq!['/'] + tail);
                assert(path[prefix.len() as int] == '/');
                assert(prefix + seq!['/'] + tail =~= path);
                lemma_match_own_text(segs, k + 1, params, prefix + seq!['/'], acc);
            },
            SegmentView::Literal(l) => {
                assert(render(rest, params) == l + tail);
                assert(path.subrange(prefix.len() as int, prefix.len() + l.len() as int) =~= l);
                assert(prefix + l + tail =~= path);
                lemma_match_own_text(segs, k + 1, params, prefix + l, acc);
            },
            _ => {
                assert(segs[k] is Separator || segs[k] is Literal);
            },
        }
    } else {
        assert(segs.skip(k).len() == 0);
        assert(path =~= prefix);
    }
}

/// A route path made only of separators and literal text matches its own
/// text, with no parameters.
pub proof fn lemma_literal_route_matches_itself(path: Seq<char>)
    requires
        tokenize_spec(path, Seq::empty()) matches Ok(x) && literal_route(x.0),
    ensures
        tokenize_spec(path, Seq::empty()) matches Ok(x) && route_match(x.0, path) == MatchOutcome::Matched(
            Seq::empty(),
        ),
{
    lemma_render_parse(path);
    if let Ok(x) = tokenize_spec(path, Seq::empty()) {
        lemma_match_own_text(x.0, 0, x.1, Seq::empty(), Seq::empty());
        assert(x.0.skip(0) =~= x.0);
        assert(Seq::<char>::empty() + render(x.0, x.1) =~= render(x.0, x.1));
    }
}

/// No name occurs twice.
pub open spec fn distinct_names(names: Seq<Seq<char>>) -> bool {
    forall|j: int, k: int| 0 <= j < k < names.len() ==> names[j] != names[k]
}

/// When the parameter names of a route are distinct, the parameter named
/// by the `i`-th name is the `i`-th parameter: reading a parameter by its
/// name and by its index gives the same text.
pub proof fn lemma_param_by_index(names: Seq<Seq<char>>, i: int)
    requires
        distinct_names(names),
        0 <= i < names.len(),
    ensures
        position_of(names, names[i]) == Some(i),
    decreases i,
{
    if i > 0 {
        let rest = names.drop_first();
        assert(names[0] != names[i]);
        assert forall|j: int, k: int| 0 <= j < k < rest.len() implies rest[j] != rest[k] by {
            assert(rest[j] == names[j + 1] && rest[k] == names[k + 1]);
        }
        assert(rest[i - 1] == names[i]);
        lemma_param_by_index(rest, i - 1);
    }
}

/// Reading a path parameter by its name and by its index agree: when no
/// parameter name occurs twice, the parameter called by the `i`-th name is the
/// parameter at index `i`.
pub proof fn lemma_param_name_agrees_with_index(
    path: Seq<char>,
    params: (Seq<(int, int)>, Seq<Seq<char>>),
    i: int,
)
    requires
        distinct_names(params.1),
        0 <= i < params.1.len(),
    ensures
        param_named(path, params, params.1[i]) == Some(param_at(path, params, i)),
{
    lemma_param_by_index(params.1, i);
}

} // verus!
