//! Collection of query parameters.
use vstd::prelude::*;
use vstd::string::StringExecFns;

use crate::text::{
    chars_of, find_from, lemma_find_char, push_char, push_str, split_char, split_chars, split_once, split_once_char,
    str_eq,
};

verus! {

/// Collection of query parameters.
/// Can be made from the query string of a URL, or the body of a POST request.
#[derive(Debug, Hash, Clone)]
pub struct Query(pub Vec<[String; 2]>);

/// The key-value pairs of a query, in order.
pub open spec fn pairs_view(v: Seq<[String; 2]>) -> Seq<(Seq<char>, Seq<char>)> {
    v.map_values(|p: [String; 2]| (p[0]@, p[1]@))
}

impl View for Query {
    type V = Seq<(Seq<char>, Seq<char>)>;

    open spec fn view(&self) -> Seq<(Seq<char>, Seq<char>)> {
        pairs_view(self.0@)
    }
}

/// Index of the first pair whose key is `key`.
pub open spec fn find_key(q: Seq<(Seq<char>, Seq<char>)>, key: Seq<char>) -> Option<int>
    decreases q.len(),
{
    if q.len() == 0 {
        None
    } else {
        match find_key(q.drop_last(), key) {
            Some(i) => Some(i),
            None => if q.last().0 == key {
                Some(q.len() - 1)
            } else {
                None
            },
        }
    }
}

proof fn lemma_find_key(q: Seq<(Seq<char>, Seq<char>)>, key: Seq<char>, i: int)
    requires
        0 <= i <= q.len(),
        forall|j: int| 0 <= j < i ==> q[j].0 != key,
    ensures
        find_key(q.take(i), key) is None,
        i < q.len() && q[i].0 == key ==> find_key(q, key) == Some(i),
        i < q.len() && q[i].0 == key ==> find_key(q.take(i + 1), key) == Some(i),
    decreases i,
{
    if i > 0 {
        assert(q.take(i).drop_last() == q.take(i - 1));
        lemma_find_key(q, key, i - 1);
    }
    if i < q.len() && q[i].0 == key {
        assert(q.take(i + 1).drop_last() == q.take(i));
        lemma_find_key_extend(q, key, i + 1);
    }
}

proof fn lemma_find_key_extend(q: Seq<(Seq<char>, Seq<char>)>, key: Seq<char>, n: int)
    requires
        0 <= n <= q.len(),
        find_key(q.take(n), key) is Some,
    ensures
        find_key(q, key) == find_key(q.take(n), key),
    decreases q.len() - n,
{
    if n < q.len() {
        assert(q.take(n + 1).drop_last() == q.take(n));
        lemma_find_key_extend(q, key, n + 1);
    } else {
        assert(q.take(n) == q);
    }
}

/// The pairs that `Query::from_body` keeps of the `&`-separated parts: each
/// part that holds a `=` is split at its first `=`; the others are dropped.
pub open spec fn body_pairs(parts: Seq<Seq<char>>) -> Seq<(Seq<char>, Seq<char>)>
    decreases parts.len(),
{
    if parts.len() == 0 {
        Seq::empty()
    } else {
        let kv = split_once_char(parts.last(), '=');
        if kv.len() == 2 {
            body_pairs(parts.drop_last()).push((kv[0], kv[1]))
        } else {
            body_pairs(parts.drop_last())
        }
    }
}

/// The query made of a form body.
pub open spec fn from_body_spec(body: Seq<char>) -> Seq<(Seq<char>, Seq<char>)> {
    body_pairs(split_char(body, '&'))
}

/// The text of one pair, `key=value`.
pub open spec fn pair_text(p: (Seq<char>, Seq<char>)) -> Seq<char> {
    p.0 + "="@ + p.1
}

/// The pairs joined as `key=value&key=value&...&`.
pub open spec fn pairs_text(q: Seq<(Seq<char>, Seq<char>)>) -> Seq<char>
    decreases q.len(),
{
    if q.len() == 0 {
        Seq::empty()
    } else {
        pairs_text(q.drop_last()) + pair_text(q.last()) + "&"@
    }
}

/// What `Display` writes for a query: nothing when empty, otherwise `?`
/// followed by the pairs as `key=value` joined with `&`.
pub open spec fn query_text(q: Seq<(Seq<char>, Seq<char>)>) -> Seq<char> {
    let s = "?"@ + pairs_text(q);
    s.take(s.len() - 1)
}

impl Query {
    /// An empty query.
    pub fn new_empty() -> (r: Query)
        ensures
            r@ == Seq::<(Seq<char>, Seq<char>)>::empty(),
    {
        let r = Query(Vec::new());
        assert(r@ =~= Seq::<(Seq<char>, Seq<char>)>::empty());
        r
    }

    /// Number of pairs.
    pub fn len(&self) -> (r: usize)
        ensures
            r == self@.len(),
    {
        self.0.len()
    }

    fn position(&self, key: &str) -> (r: Option<usize>)
        ensures
            r matches Some(i) ==> find_key(self@, key@) == Some(i as int) && i < self.0@.len(),
            r is None ==> find_key(self@, key@) is None,
    {
        let mut i: usize = 0;
        while i < self.0.len()
            invariant
                i <= self.0@.len(),
                forall|j: int| 0 <= j < i ==> self@[j].0 != key@,
            decreases self.0.len() - i,
        {
            if str_eq(self.0[i][0].as_str(), key) {
                proof {
                    lemma_find_key(self@, key@, i as int);
                }
                return Some(i);
            }
            i = i + 1;
        }
        proof {
            lemma_find_key(self@, key@, i as int);
            assert(self@.take(i as int) == self@);
        }
        None
    }

    /// Checks if the specified key exists in the query.
    pub fn has(&self, key: &str) -> (r: bool)
        ensures
            r == (find_key(self@, key@) is Some),
    {
        self.position(key).is_some()
    }

    /// Get a value from a key.
    /// This will return None if the key does not exist.
    pub fn get(&self, key: &str) -> (r: Option<&str>)
        ensures
            r is Some <==> find_key(self@, key@) is Some,
            r matches Some(v) ==> v@ == self@[find_key(self@, key@)->0].1,
    {
        match self.position(key) {
            Some(i) => Some(self.0[i][1].as_str()),
            None => None,
        }
    }

    /// Gets a value of the specified key as a mutable reference.
    /// This will return None if the key does not exist.
    pub fn get_mut(&mut self, key: &str) -> (r: Option<&mut String>)
        ensures
            r is Some <==> find_key(old(self)@, key@) is Some,
            r is None ==> *final(self) == *old(self),
            r matches Some(v) ==> {
                let i = find_key(old(self)@, key@)->0;
                &&& (*v)@ == old(self)@[i].1
                &&& final(self)@ == old(self)@.update(i, (old(self)@[i].0, (*final(v))@))
            },
    {
        match self.position(key) {
            Some(i) => {
                let pair = &mut self.0[i];
                Some(&mut pair[1])
            },
            None => None,
        }
    }

    /// Get the key-value pair of the specified key as a mutable reference.
    /// If the key does not exist, this will return None.
    pub fn get_query_mut(&mut self, key: &str) -> (r: Option<&mut [String; 2]>)
        ensures
            r is Some <==> find_key(old(self)@, key@) is Some,
            r is None ==> *final(self) == *old(self),
            r matches Some(v) ==> {
                let i = find_key(old(self)@, key@)->0;
                &&& (v[0]@, v[1]@) == old(self)@[i]
                &&& final(self).0@ == old(self).0@.update(i, *final(v))
            },
    {
        match self.position(key) {
            Some(i) => Some(&mut self.0[i]),
            None => None,
        }
    }

    /// Create a new Query from a Form POST body.
    pub fn from_body(body: &str) -> (r: Query)
        ensures
            r@ == from_body_spec(body@),
    {
        let v = chars_of(body);
        let parts = split_chars(v.as_slice(), '&');
        let mut data: Vec<[String; 2]> = Vec::new();
        let mut i: usize = 0;
        while i < parts.len()
            invariant
                i <= parts@.len(),
                parts.deep_view() == split_char(v@, '&'),
                pairs_view(data@) == body_pairs(parts.deep_view().take(i as int)),
            decreases parts.len() - i,
        {
            let pv = chars_of(parts[i].as_str());
            let kv = split_once(pv.as_slice(), '=');
            assert(parts.deep_view().take(i + 1).drop_last() == parts.deep_view().take(i as int));
            assert(parts.deep_view()[i as int] == parts@[i as int]@);
            if kv.len() == 2 {
                let key = kv[0].clone();
                let value = kv[1].clone();
                let ghost before = data@;
                data.push([key, value]);
                assert(pairs_view(data@) =~= pairs_view(before).push((kv@[0]@, kv@[1]@)));
            }
            i = i + 1;
        }
        assert(parts.deep_view().take(parts@.len() as int) == parts.deep_view());
        Query(data)
    }

    /// The text `Display` writes: `?key=value&key=value`, or nothing when empty.
    pub fn to_string(&self) -> (r: String)
        ensures
            r@ == query_text(self@),
    {
        let mut out = String::from_str("?");
        let mut i: usize = 0;
        while i < self.0.len()
            invariant
                i <= self.0@.len(),
                out@ == "?"@ + pairs_text(self@.take(i as int)),
            decreases self.0.len() - i,
        {
            push_str(&mut out, self.0[i][0].as_str());
            push_char(&mut out, '=');
            push_str(&mut out, self.0[i][1].as_str());
            push_char(&mut out, '&');
            proof {
                reveal_strlit("=");
                reveal_strlit("&");
                assert(self@.take(i + 1).drop_last() == self@.take(i as int));
                assert(self@.take(i + 1).last() == self@[i as int]);
            }
            assert(out@ =~= "?"@ + pairs_text(self@.take(i + 1)));
            i = i + 1;
        }
        assert(self@.take(self@.len() as int) == self@);
        proof {
            reveal_strlit("?");
        }
        let v = chars_of(out.as_str());
        crate::text::string_from_range(v.as_slice(), 0, v.len() - 1)
    }
}

/// The pairs joined as `key=value&key=value`, with no `&` at the end.
pub open spec fn joined_pairs(q: Seq<(Seq<char>, Seq<char>)>) -> Seq<char>
    decreases q.len(),
{
    if q.len() == 0 {
        Seq::empty()
    } else if q.len() == 1 {
        pair_text(q[0])
    } else {
        joined_pairs(q.drop_last()) + "&"@ + pair_text(q.last())
    }
}

proof fn lemma_split_no_sep(s: Seq<char>, t: Seq<char>, c: char)
    requires
        !t.contains(c),
    ensures
        split_char(s + t, c) == split_char(s, c).update(
            split_char(s, c).len() - 1,
            split_char(s, c).last() + t,
        ),
    decreases t.len(),
{
    crate::text::lemma_split_char_nonempty(s, c);
    if t.len() == 0 {
        assert(s + t =~= s);
        assert(split_char(s, c).last() + t =~= split_char(s, c).last());
        assert(split_char(s, c).update(split_char(s, c).len() - 1, split_char(s, c).last()) =~= split_char(s, c));
    } else {
        let t0 = t.drop_last();
        assert(!t0.contains(c)) by {
            if t0.contains(c) {
                let j = choose|j: int| 0 <= j < t0.len() && t0[j] == c;
                assert(t[j] == c);
            }
        }
        lemma_split_no_sep(s, t0, c);
        assert((s + t).drop_last() =~= s + t0);
        assert((s + t).last() == t.last());
        assert(t.last() != c) by {
            assert(t[t.len() - 1] == t.last());
        }
        let prev = split_char(s, c);
        assert(split_char(s + t0, c).last() == prev.last() + t0);
        assert((prev.last() + t0).push(t.last()) =~= prev.last() + t);
        assert(split_char(s + t, c) =~= prev.update(prev.len() - 1, prev.last() + t));
    }
}

proof fn lemma_pairs_text(q: Seq<(Seq<char>, Seq<char>)>)
    requires
        q.len() > 0,
    ensures
        pairs_text(q) == joined_pairs(q) + "&"@,
    decreases q.len(),
{
    if q.len() > 1 {
        lemma_pairs_text(q.drop_last());
        assert(pairs_text(q) =~= joined_pairs(q) + "&"@);
    } else {
        assert(q.drop_last().len() == 0);
        assert(pairs_text(q.drop_last()) =~= Seq::<char>::empty());
        assert(pairs_text(q) =~= joined_pairs(q) + "&"@);
    }
}

/// A key and value that are written and read back unchanged.
pub open spec fn plain_pair(p: (Seq<char>, Seq<char>)) -> bool {
    !p.0.contains('=') && !p.0.contains('&') && !p.1.contains('&')
}

proof fn lemma_pair_split(p: (Seq<char>, Seq<char>))
    requires
        plain_pair(p),
    ensures
        !pair_text(p).contains('&'),
        split_once_char(pair_text(p), '=') == seq![p.0, p.1],
{
    reveal_strlit("=");
    let t = pair_text(p);
    assert(t =~= p.0 + seq!['='] + p.1);
    assert forall|j: int| 0 <= j < p.0.len() implies t[j] != '=' by {
        assert(t[j] == p.0[j]);
        if p.0[j] == '=' {
            assert(p.0.contains('='));
        }
    }
    lemma_find_char(t, '=', 0, p.0.len() as int);
    assert(t.take(p.0.len() as int) =~= p.0);
    assert(t.skip(p.0.len() as int + 1) =~= p.1);
    if t.contains('&') {
        let j = choose|j: int| 0 <= j < t.len() && t[j] == '&';
        if j < p.0.len() {
            assert(p.0[j] == '&');
            assert(p.0.contains('&'));
        } else if j > p.0.len() {
            assert(p.1[j - p.0.len() - 1] == '&');
            assert(p.1.contains('&'));
        }
    }
}

proof fn lemma_split_joined(q: Seq<(Seq<char>, Seq<char>)>)
    requires
        q.len() > 0,
        forall|i: int| 0 <= i < q.len() ==> plain_pair(#[trigger] q[i]),
    ensures
        split_char(joined_pairs(q), '&') == q.map_values(|p: (Seq<char>, Seq<char>)| pair_text(p)),
    decreases q.len(),
{
    let last = q.last();
    assert(plain_pair(q[q.len() - 1]));
    lemma_pair_split(last);
    if q.len() == 1 {
        lemma_split_no_sep(Seq::empty(), pair_text(last), '&');
        assert(Seq::<char>::empty() + pair_text(last) =~= pair_text(last));
        assert(split_char(Seq::<char>::empty(), '&') =~= seq![Seq::<char>::empty()]);
        assert(Seq::<char>::empty() + pair_text(last) =~= pair_text(last));
        assert(split_char(joined_pairs(q), '&') =~= q.map_values(|p: (Seq<char>, Seq<char>)| pair_text(p)));
    } else {
        let init = q.drop_last();
        assert forall|i: int| 0 <= i < init.len() implies plain_pair(#[trigger] init[i]) by {
            assert(init[i] == q[i]);
        }
        lemma_split_joined(init);
        reveal_strlit("&");
        let head = joined_pairs(init) + "&"@;
        assert(head.drop_last() =~= joined_pairs(init));
        assert(head.last() == '&');
        crate::text::lemma_split_char_nonempty(joined_pairs(init), '&');
        lemma_split_no_sep(head, pair_text(last), '&');
        assert(joined_pairs(q) == head + pair_text(last));
        let prev = split_char(head, '&');
        assert(prev.last() + pair_text(last) =~= pair_text(last));
        assert(split_char(joined_pairs(q), '&') =~= q.map_values(|p: (Seq<char>, Seq<char>)| pair_text(p)));
    }
}

proof fn lemma_body_pairs_of_texts(q: Seq<(Seq<char>, Seq<char>)>)
    requires
        forall|i: int| 0 <= i < q.len() ==> plain_pair(#[trigger] q[i]),
    ensures
        body_pairs(q.map_values(|p: (Seq<char>, Seq<char>)| pair_text(p))) == q,
    decreases q.len(),
{
    if q.len() > 0 {
        let init = q.drop_last();
        assert forall|i: int| 0 <= i < init.len() implies plain_pair(#[trigger] init[i]) by {
            assert(init[i] == q[i]);
        }
        lemma_body_pairs_of_texts(init);
        assert(plain_pair(q[q.len() - 1]));
        lemma_pair_split(q.last());
        let texts = q.map_values(|p: (Seq<char>, Seq<char>)| pair_text(p));
        assert(texts.drop_last() =~= init.map_values(|p: (Seq<char>, Seq<char>)| pair_text(p)));
        assert(texts.last() == pair_text(q.last()));
        assert(body_pairs(texts) =~= q);
    }
}

/// A query written out and read back as a form body is the same query, when
/// no key holds `=` or `&` and no value holds `&`.
pub proof fn lemma_query_round_trip(q: Seq<(Seq<char>, Seq<char>)>)
    requires
        q.len() > 0,
        forall|i: int| 0 <= i < q.len() ==> plain_pair(#[trigger] q[i]),
    ensures
        from_body_spec(query_text(q).skip(1)) == q,
{
    reveal_strlit("?");
    reveal_strlit("&");
    lemma_pairs_text(q);
    let s = "?"@ + pairs_text(q);
    assert(query_text(q).skip(1) =~= joined_pairs(q));
    lemma_split_joined(q);
    lemma_body_pairs_of_texts(q);
}

} // verus!
