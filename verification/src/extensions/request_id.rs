//! Add an ID to every incoming request in the form of a header.
//! The ID is incremented on each request so that IDs do not collide.
use vstd::prelude::*;
use vstd::string::StringExecFns;

use crate::header::Header;
use crate::middleware::{MiddleResult, Middleware};
use crate::request::Request;
use crate::text::{decimal, u64_to_string};

verus! {

/// Adds an id to every incoming request, in a header of the given name.
pub struct RequestId {
    id_header: String,
    id: u64,
}

impl RequestId {
    /// The name of the header that carries the id.
    pub closed spec fn header_name(&self) -> Seq<char> {
        self.id_header@
    }

    /// The id the next request gets.
    pub closed spec fn next_id(&self) -> u64 {
        self.id
    }

    /// Create a new RequestId middleware that writes the id in the header `header`.
    pub fn new(header: &str) -> (r: RequestId)
        ensures
            r.header_name() == header@,
            r.next_id() == 0,
    {
        RequestId { id_header: String::from_str(header), id: 0 }
    }
}

impl Middleware for RequestId {
    /// Adds the header with the current id and moves on to the next id
    /// (wrapping around at the end of the range).
    fn pre(&mut self, req: &mut Request) -> (r: MiddleResult)
        ensures
            r is Continue,
            final(req).headers@.len() == old(req).headers@.len() + 1,
            final(req).headers@.take(old(req).headers@.len() as int) == old(req).headers@,
            final(req).headers@.last().name@ == old(self).header_name(),
            final(req).headers@.last().value@ == decimal(old(self).next_id() as nat),
            final(self).header_name() == old(self).header_name(),
            final(self).next_id() == old(self).next_id().wrapping_add(1),
            final(req).method == old(req).method,
            final(req).path == old(req).path,
            final(req).body == old(req).body,
            final(req).address == old(req).address,
    {
        let value = u64_to_string(self.id);
        let h = Header { name: self.id_header.clone(), value };
        let ghost before = req.headers@;
        req.headers.push(h);
        assert(req.headers@.take(before.len() as int) =~= before);
        self.id = self.id.wrapping_add(1);
        MiddleResult::Continue
    }
}

} // verus!
