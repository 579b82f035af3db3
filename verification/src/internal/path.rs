//! HTTP Path stuff
use vstd::prelude::*;
use vstd::string::StringExecFns;

use crate::internal::encoding::url::{decode, decode_spec};
use crate::text::{
    chars_of, ends_with, has_prefix, has_suffix, skip_class_backward, skip_class_forward,
    split_char, split_chars, str_eq, string_from_range, trim_end_spec, trim_start_spec, CharClass,
};

verus! {

/// Http Path
#[derive(Debug)]
pub struct Path {
    /// Raw Path String
    pub raw: String,
    /// Path Segments
    pub parts: Vec<PathPart>,
}

/// Segment of a path
///
/// Ex: `/hello/{name}` => [Normal::("hello"), Param::("name")]
#[derive(Debug)]
pub enum PathPart {
    /// Normal Path Segment (/hi)
    Normal(String),
    /// Path param (/{name})
    Param(String),
    /// Match anything for self and after
    AnyAfter,
    /// Literally Anything (E)
    Any,
}

/// The value a [`PathPart`] stands for.
pub enum PartView {
    Normal(Seq<char>),
    Param(Seq<char>),
    AnyAfter,
    Any,
}

impl View for PathPart {
    type V = PartView;

    open spec fn view(&self) -> PartView {
        match self {
            PathPart::Normal(s) => PartView::Normal(s@),
            PathPart::Param(s) => PartView::Param(s@),
            PathPart::AnyAfter => PartView::AnyAfter,
            PathPart::Any => PartView::Any,
        }
    }
}

pub open spec fn parts_view(v: Seq<PathPart>) -> Seq<PartView> {
    v.map_values(|p: PathPart| p@)
}

fn part_eq(a: &PathPart, b: &PathPart) -> (r: bool)
    ensures
        r == (a@ == b@),
{
    match (a, b) {
        (PathPart::Normal(x), PathPart::Normal(y)) => str_eq(x.as_str(), y.as_str()),
        (PathPart::Param(x), PathPart::Param(y)) => str_eq(x.as_str(), y.as_str()),
        (PathPart::AnyAfter, PathPart::AnyAfter) => true,
        (PathPart::Any, PathPart::Any) => true,
        _ => false,
    }
}

fn parts_eq(a: &[PathPart], b: &[PathPart]) -> (r: bool)
    ensures
        r == (parts_view(a@) == parts_view(b@)),
{
    if a.len() != b.len() {
        return false;
    }
    let mut i: usize = 0;
    while i < a.len()
        invariant
            a@.len() == b@.len(),
            i <= a@.len(),
            forall|j: int| 0 <= j < i ==> a@[j]@ == b@[j]@,
        decreases a.len() - i,
    {
        if !part_eq(&a[i], &b[i]) {
            assert(parts_view(a@)[i as int] != parts_view(b@)[i as int]);
            return false;
        }
        i = i + 1;
    }
    assert(parts_view(a@) =~= parts_view(b@));
    true
}

impl PartialEq for PathPart {
    fn eq(&self, other: &Self) -> (r: bool) {
        part_eq(self, other)
    }
}

impl vstd::std_specs::cmp::PartialEqSpecImpl for PathPart {
    open spec fn obeys_eq_spec() -> bool {
        true
    }

    open spec fn eq_spec(&self, other: &Self) -> bool {
        self@ == other@
    }
}

impl PartialEq for Path {
    fn eq(&self, other: &Self) -> (r: bool) {
        str_eq(self.raw.as_str(), other.raw.as_str()) && parts_eq(self.parts.as_slice(), other.parts.as_slice())
    }
}

impl vstd::std_specs::cmp::PartialEqSpecImpl for Path {
    open spec fn obeys_eq_spec() -> bool {
        true
    }

    open spec fn eq_spec(&self, other: &Self) -> bool {
        self.raw@ == other.raw@ && parts_view(self.parts@) == parts_view(other.parts@)
    }
}

/// What a segment of a route path stands for: `*` is `Any`, `**` is
/// `AnyAfter`, `{name}` is a parameter, anything else is matched literally.
pub open spec fn segment_spec(seg: Seq<char>) -> PartView {
    if seg == "*"@ {
        PartView::Any
    } else if seg == "**"@ {
        PartView::AnyAfter
    } else if has_prefix(seg, "{"@) && has_suffix(seg, "}"@) && seg.len() >= 2 {
        PartView::Param(seg.subrange(1, seg.len() - 1))
    } else {
        PartView::Normal(seg)
    }
}

/// A path without its trailing and then its leading slashes.
pub open spec fn normalize_spec(p: Seq<char>) -> Seq<char> {
    trim_start_spec(trim_end_spec(p, CharClass::Exactly('/')), CharClass::Exactly('/'))
}

/// The parts of a route path.
pub open spec fn path_parts_spec(p: Seq<char>) -> Seq<PartView> {
    split_char(normalize_spec(p), '/').map_values(|s: Seq<char>| segment_spec(s))
}

/// Matching path pieces against route parts from position `i` on: literal
/// parts must be equal, parameters capture the url decoded piece, `Any`
/// takes any piece and `AnyAfter` ends the match successfully. When the
/// shorter of the two lists ends, the match succeeds only if both have the
/// same length.
pub open spec fn match_from(parts: Seq<PartView>, pieces: Seq<Seq<char>>, i: int) -> Option<
    Seq<(Seq<char>, Seq<char>)>,
>
    decreases parts.len() - i,
{
    if i < 0 || i >= parts.len() || i >= pieces.len() {
        if pieces.len() != parts.len() {
            None
        } else {
            Some(Seq::empty())
        }
    } else {
        match parts[i] {
            PartView::Normal(x) => if x != pieces[i] {
                None
            } else {
                match_from(parts, pieces, i + 1)
            },
            PartView::Param(x) => match match_from(parts, pieces, i + 1) {
                None => None,
                Some(r) => Some(seq![(x, decode_spec(pieces[i]))] + r),
            },
            PartView::AnyAfter => Some(Seq::empty()),
            PartView::Any => match_from(parts, pieces, i + 1),
        }
    }
}

/// What [`Path::match_path`] returns for a request path.
pub open spec fn match_path_spec(parts: Seq<PartView>, path: Seq<char>) -> Option<
    Seq<(Seq<char>, Seq<char>)>,
> {
    match_from(parts, split_char(normalize_spec(path), '/'), 0)
}

pub open spec fn params_view(v: Seq<(String, String)>) -> Seq<(Seq<char>, Seq<char>)> {
    v.map_values(|p: (String, String)| (p.0@, p.1@))
}

impl PathPart {
    /// Decode Path Segment into PathPart
    pub fn from_segment(seg: &str) -> (r: PathPart)
        ensures
            r@ == segment_spec(seg@),
    {
        let v = chars_of(seg);
        if str_eq(seg, "*") {
            PathPart::Any
        } else if str_eq(seg, "**") {
            PathPart::AnyAfter
        } else if v.len() >= 2 && v[0] == '{' && v[v.len() - 1] == '}' {
            proof {
                reveal_strlit("{");
                reveal_strlit("}");
                assert(v@.take(1) =~= "{"@);
                assert(v@.skip(v@.len() - 1) =~= "}"@);
            }
            PathPart::Param(string_from_range(v.as_slice(), 1, v.len() - 1))
        } else {
            proof {
                reveal_strlit("{");
                reveal_strlit("}");
                if has_prefix(v@, "{"@) && has_suffix(v@, "}"@) && v@.len() >= 2 {
                    assert(v@.take(1)[0] == v@[0]);
                    assert(v@.skip(v@.len() - 1)[0] == v@[v@.len() - 1]);
                }
            }
            PathPart::Normal(String::from_str(seg))
        }
    }

    fn copy(&self) -> (r: PathPart)
        ensures
            r@ == self@,
    {
        match self {
            PathPart::Normal(s) => PathPart::Normal(s.clone()),
            PathPart::Param(s) => PathPart::Param(s.clone()),
            PathPart::AnyAfter => PathPart::AnyAfter,
            PathPart::Any => PathPart::Any,
        }
    }
}

/// Normalize a Path
///
/// Removes leading and trailing slashes
pub fn normalize_path(path: String) -> (r: String)
    ensures
        r@ == normalize_spec(path@),
{
    let v = chars_of(path.as_str());
    let b = skip_class_backward(v.as_slice(), 0, v.len(), CharClass::Exactly('/'));
    let a = skip_class_forward(v.as_slice(), 0, b, CharClass::Exactly('/'));
    proof {
        assert(v@.subrange(0, v@.len() as int) == v@);
        assert(v@.take(v@.len() - (v@.len() - b)) == v@.subrange(0, b as int));
        let t = v@.subrange(0, b as int);
        assert(t.skip(a as int) == v@.subrange(a as int, b as int));
    }
    string_from_range(v.as_slice(), a, b)
}

impl Path {
    /// Tokenize a new path
    pub fn new(path: String) -> (r: Path)
        ensures
            r.raw@ == normalize_spec(path@),
            parts_view(r.parts@) == path_parts_spec(path@),
    {
        let path = normalize_path(path);
        let v = chars_of(path.as_str());
        let segs = split_chars(v.as_slice(), '/');
        let mut out: Vec<PathPart> = Vec::new();
        let mut i: usize = 0;
        while i < segs.len()
            invariant
                i <= segs@.len(),
                out@.len() == i,
                forall|j: int| 0 <= j < i ==> (#[trigger] out@[j])@ == segment_spec(segs.deep_view()[j]),
            decreases segs.len() - i,
        {
            let part = PathPart::from_segment(segs[i].as_str());
            out.push(part);
            assert(segs.deep_view()[i as int] == segs@[i as int]@);
            i = i + 1;
        }
        assert(parts_view(out@) =~= segs.deep_view().map_values(|s: Seq<char>| segment_spec(s)));
        Path { raw: path, parts: out }
    }

    /// Match Path, returns None if it doesn't match and the path params if it does
    pub fn match_path(&self, path: String) -> (r: Option<Vec<(String, String)>>)
        ensures
            r is Some <==> match_path_spec(parts_view(self.parts@), path@) is Some,
            r matches Some(v) ==> match_path_spec(parts_view(self.parts@), path@) == Some(
                params_view(v@),
            ),
    {
        let ghost orig = path@;
        let npath = normalize_path(path);
        let pv = chars_of(npath.as_str());
        let pieces = split_chars(pv.as_slice(), '/');
        let ghost parts = parts_view(self.parts@);
        let ghost ps = pieces.deep_view();
        let mut out: Vec<(String, String)> = Vec::new();
        let mut i: usize = 0;
        assert(params_view(out@) + Seq::<(Seq<char>, Seq<char>)>::empty() =~= params_view(out@));
        while i < self.parts.len() && i < pieces.len()
            invariant
                i <= self.parts@.len(),
                i <= pieces@.len(),
                parts == parts_view(self.parts@),
                ps == pieces.deep_view(),
                ps == split_char(pv@, '/'),
                pv@ == normalize_spec(orig),
                orig == path@,
                match_from(parts, ps, 0) == match match_from(parts, ps, i as int) {
                    None => None,
                    Some(r) => Some(params_view(out@) + r),
                },
            decreases self.parts.len() - i,
        {
            assert(ps[i as int] == pieces@[i as int]@);
            assert(parts[i as int] == self.parts@[i as int]@);
            match &self.parts[i] {
                PathPart::Normal(x) => {
                    if !str_eq(x.as_str(), pieces[i].as_str()) {
                        return None;
                    }
                },
                PathPart::Param(x) => {
                    let value = decode(pieces[i].as_str());
                    let ghost before = params_view(out@);
                    out.push((x.clone(), value));
                    proof {
                        assert(params_view(out@) =~= before.push((x@, value@)));
                        match match_from(parts, ps, i + 1) {
                            None => {},
                            Some(r) => {
                                assert(before + (seq![(x@, value@)] + r) =~= params_view(out@)
                                    + r);
                            },
                        }
                    }
                },
                PathPart::AnyAfter => {
                    assert(params_view(out@) + Seq::<(Seq<char>, Seq<char>)>::empty()
                        =~= params_view(out@));
                    return Some(out);
                },
                PathPart::Any => {},
            }
            i = i + 1;
        }
        if pieces.len() != self.parts.len() {
            return None;
        }
        assert(params_view(out@) + Seq::<(Seq<char>, Seq<char>)>::empty() =~= params_view(out@));
        Some(out)
    }
}

/// A segment that is matched literally.
pub open spec fn literal_segment(seg: Seq<char>) -> bool {
    segment_spec(seg) == PartView::Normal(seg)
}

proof fn lemma_match_literal_from(pieces: Seq<Seq<char>>, i: int)
    requires
        0 <= i <= pieces.len(),
        forall|k: int| 0 <= k < pieces.len() ==> literal_segment(#[trigger] pieces[k]),
    ensures
        match_from(pieces.map_values(|s: Seq<char>| segment_spec(s)), pieces, i) == Some(
            Seq::<(Seq<char>, Seq<char>)>::empty(),
        ),
    decreases pieces.len() - i,
{
    let parts = pieces.map_values(|s: Seq<char>| segment_spec(s));
    if i < pieces.len() {
        assert(literal_segment(pieces[i]));
        assert(parts[i] == segment_spec(pieces[i]));
        lemma_match_literal_from(pieces, i + 1);
    }
}

/// A route path whose segments are all literal (none is `*`, `**` or a
/// parameter) matches its own text, with no parameters.
pub proof fn lemma_literal_route_matches_itself(p: Seq<char>)
    requires
        forall|k: int|
            0 <= k < split_char(normalize_spec(p), '/').len() ==> literal_segment(
                #[trigger] split_char(normalize_spec(p), '/')[k],
            ),
    ensures
        match_path_spec(path_parts_spec(p), p) == Some(Seq::<(Seq<char>, Seq<char>)>::empty()),
{
    lemma_match_literal_from(split_char(normalize_spec(p), '/'), 0);
}

} // verus!
