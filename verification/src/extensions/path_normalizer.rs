//! Normalizes paths to a common format by removing trailing slashes and repeated slashes.
use vstd::prelude::*;

use crate::http::collapse_slashes;
use crate::middleware::{MiddleResult, Middleware};
use crate::request::Request;
use crate::text::{chars_of, count_trailing, in_class, push_char, trim_end_class, trim_end_spec, CharClass};

verus! {

/// Normalizes paths to a common format by removing trailing slashes and repeated slashes.
/// `/hello/world/` becomes `/hello/world`, and `/hello//world` becomes `/hello/world`.
pub struct PathNormalizer;

/// The normal form of a path: runs of slashes made one, and trailing slashes removed.
pub open spec fn normalize_spec(p: Seq<char>) -> Seq<char> {
    trim_end_spec(collapse_slashes(p), CharClass::Exactly('/'))
}

/// A text with each run of slashes made one slash.
pub fn collapse(s: &str) -> (r: String)
    ensures
        r@ == collapse_slashes(s@),
{
    let p = chars_of(s);
    let mut out = String::new();
    let mut last_slash = false;
    let mut i: usize = 0;
    while i < p.len()
        invariant
            i <= p@.len(),
            p@ == s@,
            out@ == collapse_slashes(p@.take(i as int)),
            last_slash == (out@.len() > 0 && out@.last() == '/'),
        decreases p.len() - i,
    {
        let c = p[i];
        assert(p@.take(i + 1).drop_last() == p@.take(i as int));
        assert(p@.take(i + 1).last() == c);
        if !(c == '/' && last_slash) {
            push_char(&mut out, c);
            last_slash = c == '/';
        }
        i = i + 1;
    }
    assert(p@.take(p@.len() as int) == p@);
    out
}

/// Normalize a path in place.
pub fn normalize(path: &mut String)
    ensures
        final(path)@ == normalize_spec(old(path)@),
{
    let c = collapse(path.as_str());
    *path = trim_end_class(c.as_str(), CharClass::Exactly('/'));
}

impl Middleware for PathNormalizer {
    fn pre(&mut self, req: &mut Request) -> (r: MiddleResult)
        ensures
            r is Continue,
            final(req).path@ == normalize_spec(old(req).path@),
            final(req).method == old(req).method,
            final(req).headers == old(req).headers,
            final(req).body == old(req).body,
            final(req).query == old(req).query,
            final(req).version == old(req).version,
            final(req).address == old(req).address,
    {
        normalize(&mut req.path);
        MiddleResult::Continue
    }
}

/// No slash in `s` is followed by another.
pub open spec fn no_double_slash(s: Seq<char>) -> bool {
    forall|i: int| 0 <= i < s.len() - 1 ==> !(#[trigger] s[i] == '/' && s[i + 1] == '/')
}

proof fn lemma_collapse_single(s: Seq<char>)
    ensures
        no_double_slash(collapse_slashes(s)),
        collapse_slashes(s).len() > 0 ==> (collapse_slashes(s).last() == '/' <==> s.last() == '/'),
        collapse_slashes(s).len() == 0 <==> s.len() == 0,
    decreases s.len(),
{
    if s.len() > 0 {
        let p = collapse_slashes(s.drop_last());
        lemma_collapse_single(s.drop_last());
        let r = collapse_slashes(s);
        if s.last() != '/' || !(p.len() > 0 && p.last() == '/') {
            let c = if s.last() != '/' { s.last() } else { '/' };
            assert(r == p.push(c));
            assert forall|i: int| 0 <= i < r.len() - 1 implies !(#[trigger] r[i] == '/' && r[i + 1] == '/') by {
                if i < p.len() - 1 {
                    assert(r[i] == p[i] && r[i + 1] == p[i + 1]);
                } else {
                    assert(i == p.len() - 1);
                    assert(r[i] == p.last());
                }
            }
        }
    }
}

proof fn lemma_collapse_fixed(s: Seq<char>)
    requires
        no_double_slash(s),
    ensures
        collapse_slashes(s) == s,
    decreases s.len(),
{
    if s.len() > 0 {
        let d = s.drop_last();
        assert forall|i: int| 0 <= i < d.len() - 1 implies !(#[trigger] d[i] == '/' && d[i + 1] == '/') by {
            assert(d[i] == s[i] && d[i + 1] == s[i + 1]);
        }
        lemma_collapse_fixed(d);
        if s.last() == '/' && d.len() > 0 {
            assert(!(s[d.len() - 1] == '/' && s[d.len() as int] == '/'));
            assert(d.last() == s[d.len() - 1]);
        }
        assert(d.push(s.last()) =~= s);
    }
}

proof fn lemma_trailing_bound(s: Seq<char>, k: CharClass)
    ensures
        count_trailing(s, k) <= s.len(),
        count_trailing(s, k) < s.len() ==> !in_class(k, s[s.len() - 1 - count_trailing(s, k)]),
    decreases s.len(),
{
    if s.len() > 0 && in_class(k, s.last()) {
        lemma_trailing_bound(s.drop_last(), k);
    }
}

/// Normalizing a path that is already normal leaves it as it is.
pub proof fn lemma_normalize_idempotent(p: Seq<char>)
    ensures
        normalize_spec(normalize_spec(p)) == normalize_spec(p),
{
    let k = CharClass::Exactly('/');
    let c = collapse_slashes(p);
    let q = normalize_spec(p);
    lemma_collapse_single(p);
    lemma_trailing_bound(c, k);
    assert(q == c.take(c.len() - count_trailing(c, k)));
    assert forall|i: int| 0 <= i < q.len() - 1 implies !(#[trigger] q[i] == '/' && q[i + 1] == '/') by {
        assert(q[i] == c[i] && q[i + 1] == c[i + 1]);
    }
    lemma_collapse_fixed(q);
    if q.len() > 0 {
        assert(q.last() == c[c.len() - 1 - count_trailing(c, k)]);
        assert(!in_class(k, q.last()));
    }
    assert(count_trailing(q, k) == 0);
    assert(q.take(q.len() as int) =~= q);
}

} // verus!
