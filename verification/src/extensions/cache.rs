//! Caching responses in memory.
use vstd::prelude::*;

use crate::http::method::Method;
use crate::internal::path::{match_path_spec, parts_view, path_parts_spec, Path};
use crate::request::Request;
use crate::response::{same_response, Response};
use crate::text::str_eq;

verus! {

/// A response cached for a method and path, and when it was cached.
pub struct CacheEntry {
    /// The method of the request.
    pub method: Method,
    /// The path of the request.
    pub path: String,
    /// The response.
    pub response: Response,
    /// When it was cached, in seconds.
    pub time: u64,
}

/// Caches responses by method and path, for a time.
pub struct Cache {
    entries: Vec<CacheEntry>,
    timeout: u64,
}

/// The index of the entry for a method and path.
pub open spec fn entry_index(es: Seq<CacheEntry>, method: Method, path: Seq<char>) -> Option<int>
    decreases es.len(),
{
    if es.len() == 0 {
        None
    } else if es.last().method == method && es.last().path@ == path {
        Some(es.len() - 1)
    } else {
        entry_index(es.drop_last(), method, path)
    }
}

proof fn lemma_entry_index(es: Seq<CacheEntry>, method: Method, path: Seq<char>)
    ensures
        entry_index(es, method, path) matches Some(i) ==> 0 <= i < es.len() && es[i].method == method
            && es[i].path@ == path && forall|k: int| i < k < es.len() ==> !(es[k].method == method && es[k].path@ == path),
        entry_index(es, method, path) is None ==> forall|k: int|
            0 <= k < es.len() ==> !(es[k].method == method && es[k].path@ == path),
    decreases es.len(),
{
    if es.len() > 0 && !(es.last().method == method && es.last().path@ == path) {
        let init = es.drop_last();
        lemma_entry_index(init, method, path);
        assert forall|k: int| 0 <= k < init.len() implies init[k] == es[k] by {}
    }
}

impl Cache {
    /// The cached entries.
    pub closed spec fn entries_of(&self) -> Seq<CacheEntry> {
        self.entries@
    }

    /// How long a response stays cached, in seconds; zero for ever.
    pub closed spec fn timeout_of(&self) -> u64 {
        self.timeout
    }

    /// An empty cache whose responses stay for an hour.
    pub fn new() -> (r: Cache)
        ensures
            r.entries_of().len() == 0,
            r.timeout_of() == 3600,
    {
        Cache { entries: Vec::new(), timeout: 3600 }
    }

    /// Set how long a response stays cached, in seconds; zero for ever.
    pub fn timeout(self, timeout: u64) -> (r: Cache)
        ensures
            r.entries_of() == self.entries_of(),
            r.timeout_of() == timeout,
    {
        Cache { timeout, ..self }
    }

    fn find(&self, method: Method, path: &str) -> (r: Option<usize>)
        ensures
            match r {
                Some(j) => entry_index(self.entries_of(), method, path@) == Some(j as int),
                None => entry_index(self.entries_of(), method, path@) is None,
            },
    {
        proof {
            lemma_entry_index(self.entries@, method, path@);
        }
        let mut n = self.entries.len();
        while n > 0
            invariant
                n <= self.entries@.len(),
                forall|k: int| n <= k < self.entries@.len() ==> !(self.entries@[k].method == method
                    && self.entries@[k].path@ == path@),
                entry_index(self.entries@, method, path@) matches Some(i) ==> 0 <= i < self.entries@.len()
                    && self.entries@[i].method == method && self.entries@[i].path@ == path@
                    && forall|k: int| i < k < self.entries@.len() ==> !(self.entries@[k].method == method
                    && self.entries@[k].path@ == path@),
                entry_index(self.entries@, method, path@) is None ==> forall|k: int|
                    0 <= k < self.entries@.len() ==> !(self.entries@[k].method == method && self.entries@[k].path@ == path@),
            decreases n,
        {
            if self.entries[n - 1].method == method && str_eq(self.entries[n - 1].path.as_str(), path) {
                return Some(n - 1);
            }
            n = n - 1;
        }
        None
    }

    /// The response cached for a request at time `now`: none if there is
    /// none, or if it has expired (then it is dropped); otherwise a copy.
    pub fn lookup(&mut self, method: Method, path: &str, now: u64) -> (r: Option<Response>)
        requires
            forall|k: int| 0 <= k < old(self).entries_of().len() ==> old(self).entries_of()[k].time <= now,
        ensures
            final(self).timeout_of() == old(self).timeout_of(),
            match entry_index(old(self).entries_of(), method, path@) {
                None => r is None && final(self).entries_of() == old(self).entries_of(),
                Some(i) => if old(self).timeout_of() != 0 && now - old(self).entries_of()[i].time >= old(self).timeout_of() {
                    r is None && final(self).entries_of() == old(self).entries_of().remove(i)
                } else {
                    r matches Some(res) && same_response(res, old(self).entries_of()[i].response)
                        && final(self).entries_of() == old(self).entries_of()
                },
            },
    {
        match self.find(method, path) {
            None => None,
            Some(i) => {
                proof {
                    lemma_entry_index(self.entries@, method, path@);
                }
                let ghost before = self.entries@;
                assert(before[i as int].time <= now);
                if self.timeout != 0 && now - self.entries[i].time >= self.timeout {
                    self.entries.remove(i);
                    assert(self.entries@ == before.remove(i as int));
                    return None;
                }
                let res = self.entries[i].response.duplicate();
                assert(same_response(res, before[i as int].response));
                Some(res)
            },
        }
    }

    /// Cache the response to a request at time `now`, unless it is not to be
    /// cached or one is cached already for its method and path.
    pub fn store(&mut self, method: Method, path: &str, res: &Response, now: u64, cacheable: bool)
        ensures
            final(self).timeout_of() == old(self).timeout_of(),
            !cacheable || entry_index(old(self).entries_of(), method, path@) is Some ==> final(self).entries_of()
                == old(self).entries_of(),
            cacheable && entry_index(old(self).entries_of(), method, path@) is None ==> {
                &&& final(self).entries_of().len() == old(self).entries_of().len() + 1
                &&& final(self).entries_of().drop_last() == old(self).entries_of()
                &&& final(self).entries_of().last().method == method
                &&& final(self).entries_of().last().path@ == path@
                &&& same_response(final(self).entries_of().last().response, *res)
                &&& final(self).entries_of().last().time == now
            },
    {
        if !cacheable {
            return;
        }
        match self.find(method, path) {
            Some(_) => {},
            None => {
                let ghost before = self.entries@;
                self.entries.push(CacheEntry {
                    method,
                    path: String::from_str(path),
                    response: res.duplicate(),
                    time: now,
                });
                assert(self.entries@.drop_last() =~= before);
            },
        }
    }
}

/// A response stored for a method and path is served for them until it
/// expires.
pub proof fn lemma_cached_until_expiry(es: Seq<CacheEntry>, e: CacheEntry)
    requires
        entry_index(es, e.method, e.path@) is None,
    ensures
        entry_index(es.push(e), e.method, e.path@) == Some(es.len() as int),
{
}

/// The request path matches one of the route paths.
pub open spec fn path_match_spec(req_path: Seq<char>, paths: Seq<Seq<char>>) -> bool {
    exists|i: int| 0 <= i < paths.len() && #[trigger] match_path_spec(path_parts_spec(paths[i]), req_path) is Some
}

/// Whether a request is one of those to cache: its path matches one of the
/// route paths `paths` (such as `/cache/**`).
pub fn path_match(req: &Request, paths: &[&str]) -> (r: bool)
    ensures
        r == path_match_spec(req.path@, paths@.map_values(|p: &str| p@)),
{
    let ghost ps = paths@.map_values(|p: &str| p@);
    let mut i: usize = 0;
    while i < paths.len()
        invariant
            i <= paths@.len(),
            ps == paths@.map_values(|p: &str| p@),
            forall|k: int| 0 <= k < i ==> !(#[trigger] match_path_spec(path_parts_spec(ps[k]), req.path@) is Some),
        decreases paths.len() - i,
    {
        let route = Path::new(String::from_str(paths[i]));
        let hit = route.match_path(req.path.clone());
        assert(ps[i as int] == paths@[i as int]@);
        match hit {
            Some(_) => {
                return true;
            },
            None => {},
        }
        i = i + 1;
    }
    false
}

impl Default for Cache {
    /// The same as [`Cache::new`].
    fn default() -> (r: Cache)
        ensures
            r.entries_of().len() == 0,
            r.timeout_of() == 3600,
    {
        Cache::new()
    }
}

} // verus!
