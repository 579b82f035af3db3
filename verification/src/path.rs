//! Route paths of the first routing API.
use vstd::prelude::*;
use vstd::string::StringExecFns;

use crate::text::{
    chars_of, has_prefix, has_suffix, push_str, split_char, split_chars, str_eq, string_from_range,
};

verus! {

#[derive(Debug)]
pub struct Path {
    pub raw: String,
    pub parts: Vec<PathPart>,
}

#[derive(Debug)]
pub enum PathPart {
    /// Normal Path Segment (/hi)
    Normal(String),
    /// Path param (/{name})
    Param(String),
    /// Literally Anything (E)
    Any,
}

/// The value a [`PathPart`] stands for.
pub enum PartView {
    Normal(Seq<char>),
    Param(Seq<char>),
    Any,
}

impl View for PathPart {
    type V = PartView;

    open spec fn view(&self) -> PartView {
        match self {
            PathPart::Normal(s) => PartView::Normal(s@),
            PathPart::Param(s) => PartView::Param(s@),
            PathPart::Any => PartView::Any,
        }
    }
}

pub open spec fn parts_view(v: Seq<PathPart>) -> Seq<PartView> {
    v.map_values(|p: PathPart| p@)
}

/// `*` matches any segment, `{name}` is a parameter, anything else is literal.
pub open spec fn segment_spec(seg: Seq<char>) -> PartView {
    if seg == "*"@ {
        PartView::Any
    } else if has_prefix(seg, "{"@) && has_suffix(seg, "}"@) && seg.len() >= 2 {
        PartView::Param(seg.subrange(1, seg.len() - 1))
    } else {
        PartView::Normal(seg)
    }
}

/// A route path with a leading `/` added when it has none.
pub open spec fn rooted(p: Seq<char>) -> Seq<char> {
    if p.len() > 0 && p[0] == '/' {
        p
    } else {
        seq!['/'] + p
    }
}

/// Matching from piece `i` on: every literal part equals its piece,
/// parameters capture their piece, `Any` takes any piece.
pub open spec fn match_from(parts: Seq<PartView>, pieces: Seq<Seq<char>>, i: int) -> Option<
    Seq<(Seq<char>, Seq<char>)>,
>
    decreases parts.len() - i,
{
    if i < 0 || i >= parts.len() || parts.len() != pieces.len() {
        if parts.len() != pieces.len() {
            None
        } else {
            Some(Seq::empty())
        }
    } else {
        match parts[i] {
            PartView::Normal(x) => if x != pieces[i] {
                None
            } else {
                match_from(parts, pieces, i + 1)
            },
            PartView::Param(x) => match match_from(parts, pieces, i + 1) {
                None => None,
                Some(r) => Some(seq![(x, pieces[i])] + r),
            },
            PartView::Any => match_from(parts, pieces, i + 1),
        }
    }
}

pub open spec fn params_view(v: Seq<(String, String)>) -> Seq<(Seq<char>, Seq<char>)> {
    v.map_values(|p: (String, String)| (p.0@, p.1@))
}

impl PathPart {
    pub fn from_segment(seg: &str) -> (r: PathPart)
        ensures
            r@ == segment_spec(seg@),
    {
        let v = chars_of(seg);
        if str_eq(seg, "*") {
            PathPart::Any
        } else if v.len() >= 2 && v[0] == '{' && v[v.len() - 1] == '}' {
            proof {
                reveal_strlit("{");
                reveal_strlit("}");
                assert(v@.take(1) =~= "{"@);
                assert(v@.skip(v@.len() - 1) =~= "}"@);
            }
            PathPart::Param(string_from_range(v.as_slice(), 1, v.len() - 1))
        } else {
            proof {
                reveal_strlit("{");
                reveal_strlit("}");
                if has_prefix(v@, "{"@) && has_suffix(v@, "}"@) && v@.len() >= 2 {
                    assert(v@.take(1)[0] == v@[0]);
                    assert(v@.skip(v@.len() - 1)[0] == v@[v@.len() - 1]);
                }
            }
            PathPart::Normal(String::from_str(seg))
        }
    }
}

impl Path {
    pub fn new(path: String) -> (r: Path)
        ensures
            r.raw@ == rooted(path@),
            parts_view(r.parts@) == split_char(rooted(path@), '/').map_values(
                |s: Seq<char>| segment_spec(s),
            ),
    {
        let v = chars_of(path.as_str());
        let raw = if v.len() > 0 && v[0] == '/' {
            path
        } else {
            let mut s = String::from_str("/");
            push_str(&mut s, path.as_str());
            proof {
                reveal_strlit("/");
                assert("/"@ =~= seq!['/']);
            }
            s
        };
        let rv = chars_of(raw.as_str());
        let segs = split_chars(rv.as_slice(), '/');
        let mut out: Vec<PathPart> = Vec::new();
        let mut i: usize = 0;
        while i < segs.len()
            invariant
                i <= segs@.len(),
                out@.len() == i,
                forall|j: int| 0 <= j < i ==> (#[trigger] out@[j])@ == segment_spec(segs.deep_view()[j]),
            decreases segs.len() - i,
        {
            let part = PathPart::from_segment(segs[i].as_str());
            out.push(part);
            assert(segs.deep_view()[i as int] == segs@[i as int]@);
            i = i + 1;
        }
        assert(parts_view(out@) =~= segs.deep_view().map_values(|s: Seq<char>| segment_spec(s)));
        Path { raw, parts: out }
    }

    pub fn match_path(&self, path: String) -> (r: Option<Vec<(String, String)>>)
        ensures
            r is Some <==> match_from(parts_view(self.parts@), split_char(path@, '/'), 0) is Some,
            r matches Some(v) ==> match_from(parts_view(self.parts@), split_char(path@, '/'), 0)
                == Some(params_view(v@)),
    {
        let pv = chars_of(path.as_str());
        let pieces = split_chars(pv.as_slice(), '/');
        let ghost parts = parts_view(self.parts@);
        let ghost ps = pieces.deep_view();
        if pieces.len() != self.parts.len() {
            return None;
        }
        let mut out: Vec<(String, String)> = Vec::new();
        let mut i: usize = 0;
        assert(params_view(out@) + Seq::<(Seq<char>, Seq<char>)>::empty() =~= params_view(out@));
        while i < self.parts.len()
            invariant
                i <= self.parts@.len(),
                pieces@.len() == self.parts@.len(),
                parts == parts_view(self.parts@),
                ps == pieces.deep_view(),
                ps == split_char(path@, '/'),
                match_from(parts, ps, 0) == match match_from(parts, ps, i as int) {
                    None => None,
                    Some(r) => Some(params_view(out@) + r),
                },
            decreases self.parts.len() - i,
        {
            assert(ps[i as int] == pieces@[i as int]@);
            assert(parts[i as int] == self.parts@[i as int]@);
            match &self.parts[i] {
                PathPart::Normal(x) => {
                    if !str_eq(x.as_str(), pieces[i].as_str()) {
                        return None;
                    }
                },
                PathPart::Param(x) => {
                    let ghost before = params_view(out@);
                    out.push((x.clone(), pieces[i].clone()));
                    proof {
                        assert(params_view(out@) =~= before.push((x@, ps[i as int])));
                        match match_from(parts, ps, i + 1) {
                            None => {},
                            Some(r) => {
                                assert(before + (seq![(x@, ps[i as int])] + r) =~= params_view(
                                    out@,
                                ) + r);
                            },
                        }
                    }
                },
                PathPart::Any => {},
            }
            i = i + 1;
        }
        assert(params_view(out@) + Seq::<(Seq<char>, Seq<char>)>::empty() =~= params_view(out@));
        Some(out)
    }
}

} // verus!
