//! The context of a request being handled: the request, its path
//! parameters, and the response being built.
use vstd::prelude::*;
use vstd::string::StringExecFns;
use vstd::string::StringSliceAdditionalSpecFns;
use vstd::utf8::encode_utf8;

use std::sync::Arc;

use crate::error::{Error, HandleError};
use crate::extensions::content_type::{content_type_spec, Content};
use crate::header::Header;
use crate::http::cookie::{set_cookie_text, SetCookie};
use crate::http::status::Status;
use crate::internal::router::{param_at, param_named, position_of, sliceable, PathParameters};
use crate::request::Request;
use crate::response::{Response, ResponseBody};
use crate::text::bytes_of;

verus! {

/// Flags that can be set on a [`Context`].
#[derive(Debug, Clone, Copy, PartialEq, Eq, Structural)]
pub enum ContextFlag {
    /// The response has already been sent.
    ResponseSent,
    /// The response has been modified.
    ResponseDirty,
    /// The user has guaranteed that the response will be sent, so the server
    /// waits for it rather than answering 501 Not Implemented.
    GuaranteedSend,
}

/// The bit of a flag.
pub open spec fn flag_bit(f: ContextFlag) -> u8 {
    match f {
        ContextFlag::ResponseSent => 2,
        ContextFlag::ResponseDirty => 4,
        ContextFlag::GuaranteedSend => 8,
    }
}

/// The flag `f` is set in `bits`.
pub open spec fn has_flag(bits: u8, f: ContextFlag) -> bool {
    bits & flag_bit(f) != 0
}

impl ContextFlag {
    fn bit(&self) -> (r: u8)
        ensures
            r == flag_bit(*self),
    {
        match self {
            ContextFlag::ResponseSent => 2,
            ContextFlag::ResponseDirty => 4,
            ContextFlag::GuaranteedSend => 8,
        }
    }
}

/// Bit-packed context flags.
#[derive(Debug, Clone, Copy)]
pub struct ContextFlags(pub u8);

impl ContextFlags {
    /// No flags set.
    pub fn new() -> (r: ContextFlags)
        ensures
            r.0 == 0,
    {
        ContextFlags(0)
    }

    /// Get the value of a flag.
    pub fn get(&self, flag: ContextFlag) -> (r: bool)
        ensures
            r == has_flag(self.0, flag),
    {
        self.0 & flag.bit() != 0
    }

    /// Set a flag.
    pub fn set(&mut self, flag: ContextFlag)
        ensures
            final(self).0 == old(self).0 | flag_bit(flag),
    {
        self.0 = self.0 | flag.bit();
    }
}

/// Setting a flag sets it, and leaves every flag that was set still set.
pub proof fn lemma_set_flag(bits: u8, f: ContextFlag, g: ContextFlag)
    ensures
        has_flag(bits | flag_bit(f), f),
        has_flag(bits, g) ==> has_flag(bits | flag_bit(f), g),
{
    let b = flag_bit(f);
    let c = flag_bit(g);
    assert(b != 0);
    assert(b != 0 ==> (bits | b) & b != 0) by (bit_vector);
    assert(bits & c != 0 ==> (bits | b) & c != 0) by (bit_vector);
}

/// The flags of a new context have none set.
pub proof fn lemma_no_flags(f: ContextFlag)
    ensures
        !has_flag(0, f),
{
    let b = flag_bit(f);
    assert(0u8 & b == 0) by (bit_vector);
}

/// `Arc::clone`: another pointer to the same value.
#[verifier::external_body]
fn arc_clone<T>(a: &Arc<T>) -> (r: Arc<T>)
    ensures
        r == *a,
{
    a.clone()
}

/// The data of a request being handled: the request, its path parameters,
/// the response being built, and flags on what happened to it.
pub struct Context<State> {
    /// The state of the server, if it has one.
    pub state: Option<Arc<State>>,
    /// The request being handled.
    pub req: Arc<Request>,
    /// The path parameters.
    pub path_params: Option<PathParameters>,
    /// The response being built.
    pub response: Response,
    /// Bit-packed flags.
    pub flags: ContextFlags,
}

/// `b` is `a` with the response `res` and the flags `flags`.
pub open spec fn same_but_response<State>(a: Context<State>, b: Context<State>) -> bool {
    &&& b.state == a.state
    &&& b.req == a.req
    &&& b.path_params == a.path_params
}

impl<State> Context<State> {
    /// A context for a request: no path parameters, a new response, no flags.
    pub fn new(state: Option<Arc<State>>, req: Arc<Request>) -> (r: Context<State>)
        ensures
            r.state == state,
            r.req == req,
            r.path_params is None,
            r.response.status == Status::OK,
            r.response.reason is None,
            r.response.data is Empty,
            r.response.headers@.len() == 0,
            r.flags.0 == 0,
    {
        Context { state, req, path_params: None, response: Response::new(), flags: ContextFlags::new() }
    }

    /// The server's state; the server must have one.
    pub fn app(&self) -> (r: Arc<State>)
        requires
            self.state is Some,
        ensures
            r == self.state->0,
    {
        arc_clone(self.state.as_ref().unwrap())
    }

    /// The value of the path parameter `name` in the request path; the
    /// parameter must exist.
    pub fn param(&self, name: &str) -> (r: &str)
        requires
            self.path_params matches Some(p) && position_of(p@.1, name@) matches Some(i) && i
                < p@.0.len() && sliceable(self.req.path@, p@.0[i]),
        ensures
            self.path_params matches Some(p) && param_named(self.req.path@, p@, name@) == Some(r.spec_bytes()),
    {
        let params = self.path_params.as_ref().unwrap();
        params.get(name, self.req.path.as_str()).unwrap()
    }

    /// The value of the path parameter at index `idx` in the request path;
    /// the parameter must exist.
    pub fn param_idx(&self, idx: usize) -> (r: &str)
        requires
            self.path_params matches Some(p) && idx < p@.0.len() && sliceable(
                self.req.path@,
                p@.0[idx as int],
            ),
        ensures
            self.path_params matches Some(p) && r.spec_bytes() == param_at(self.req.path@, p@, idx as int),
    {
        let params = self.path_params.as_ref().unwrap();
        params.get_index(idx, self.req.path.as_str()).unwrap()
    }

    /// The response being built.
    pub fn get_response(&mut self) -> (r: &mut Response)
        ensures
            *r == old(self).response,
            final(self).response == *final(r),
            final(self).flags == old(self).flags,
            same_but_response(*old(self), *final(self)),
    {
        &mut self.response
    }

    /// Check that a response may be sent: it fails if one was sent already.
    pub fn send(&self) -> (r: Result<(), Error>)
        ensures
            has_flag(self.flags.0, ContextFlag::ResponseSent) ==> r matches Err(Error::Handle(
                HandleError::ResponseAlreadySent,
            )),
            !has_flag(self.flags.0, ContextFlag::ResponseSent) ==> r is Ok,
    {
        if self.flags.get(ContextFlag::ResponseSent) {
            return Err(Error::Handle(HandleError::ResponseAlreadySent));
        }
        Ok(())
    }

    /// Record that the response was written; tells whether a sender waits for it.
    pub fn response_written(&mut self) -> (r: bool)
        ensures
            final(self).flags.0 == old(self).flags.0 | flag_bit(ContextFlag::ResponseSent),
            r == has_flag(old(self).flags.0, ContextFlag::GuaranteedSend),
            final(self).response == old(self).response,
            same_but_response(*old(self), *final(self)),
    {
        let r = self.flags.get(ContextFlag::GuaranteedSend);
        self.flags.set(ContextFlag::ResponseSent);
        r
    }

    /// Guarantee that the response will be sent, possibly after the handler returns.
    pub fn guarantee_will_send(&mut self) -> (r: &mut Self)
        ensures
            r.flags.0 == old(self).flags.0 | flag_bit(ContextFlag::GuaranteedSend),
            r.response == old(self).response,
            same_but_response(*old(self), *r),
            *final(self) == *final(r),
    {
        self.flags.set(ContextFlag::GuaranteedSend);
        self
    }

    /// Overwrite the response with a new one.
    pub fn with_response(&mut self, res: Response) -> (r: &mut Self)
        ensures
            r.response == res,
            r.flags == old(self).flags,
            same_but_response(*old(self), *r),
            *final(self) == *final(r),
    {
        self.response = res;
        self
    }

    /// Set the status of the response.
    pub fn status(&mut self, code: Status) -> (r: &mut Self)
        ensures
            r.response.status == code,
            r.response.data == old(self).response.data,
            r.response.reason == old(self).response.reason,
            r.response.headers == old(self).response.headers,
            r.response.flag == old(self).response.flag,
            r.flags.0 == old(self).flags.0 | flag_bit(ContextFlag::ResponseDirty),
            same_but_response(*old(self), *r),
            *final(self) == *final(r),
    {
        self.response.status = code;
        self.flags.set(ContextFlag::ResponseDirty);
        self
    }

    /// Set the reason phrase of the response.
    pub fn reason(&mut self, reason: &str) -> (r: &mut Self)
        ensures
            r.response.reason matches Some(s) && s@ == reason@,
            r.response.status == old(self).response.status,
            r.response.data == old(self).response.data,
            r.response.headers == old(self).response.headers,
            r.response.flag == old(self).response.flag,
            r.flags.0 == old(self).flags.0 | flag_bit(ContextFlag::ResponseDirty),
            same_but_response(*old(self), *r),
            *final(self) == *final(r),
    {
        self.response.reason = Some(String::from_str(reason));
        self.flags.set(ContextFlag::ResponseDirty);
        self
    }

    /// Set the body of the response to the UTF-8 bytes of `text`.
    pub fn text(&mut self, text: &str) -> (r: &mut Self)
        ensures
            r.response.data matches ResponseBody::Static(d) && d@ == encode_utf8(text@),
            r.response.status == old(self).response.status,
            r.response.reason == old(self).response.reason,
            r.response.headers == old(self).response.headers,
            r.response.flag == old(self).response.flag,
            r.flags.0 == old(self).flags.0 | flag_bit(ContextFlag::ResponseDirty),
            same_but_response(*old(self), *r),
            *final(self) == *final(r),
    {
        self.response.data = ResponseBody::Static(bytes_of(text));
        self.flags.set(ContextFlag::ResponseDirty);
        self
    }

    /// Set the body of the response to raw bytes.
    pub fn bytes(&mut self, bytes: Vec<u8>) -> (r: &mut Self)
        ensures
            r.response.data matches ResponseBody::Static(d) && d@ == bytes@,
            r.response.status == old(self).response.status,
            r.response.reason == old(self).response.reason,
            r.response.headers == old(self).response.headers,
            r.response.flag == old(self).response.flag,
            r.flags.0 == old(self).flags.0 | flag_bit(ContextFlag::ResponseDirty),
            same_but_response(*old(self), *r),
            *final(self) == *final(r),
    {
        self.response.data = ResponseBody::Static(bytes);
        self.flags.set(ContextFlag::ResponseDirty);
        self
    }

    /// Mark the body of the response as streamed from a reader that the
    /// application holds.
    pub fn stream(&mut self) -> (r: &mut Self)
        ensures
            r.response.data is Stream,
            r.response.status == old(self).response.status,
            r.response.reason == old(self).response.reason,
            r.response.headers == old(self).response.headers,
            r.response.flag == old(self).response.flag,
            r.flags.0 == old(self).flags.0 | flag_bit(ContextFlag::ResponseDirty),
            same_but_response(*old(self), *r),
            *final(self) == *final(r),
    {
        self.response.data = ResponseBody::Stream;
        self.flags.set(ContextFlag::ResponseDirty);
        self
    }

    /// Add a header to the response.
    pub fn header(&mut self, header: Header) -> (r: &mut Self)
        ensures
            r.response.headers@ == old(self).response.headers@.push(header),
            r.response.status == old(self).response.status,
            r.response.reason == old(self).response.reason,
            r.response.data == old(self).response.data,
            r.response.flag == old(self).response.flag,
            r.flags.0 == old(self).flags.0 | flag_bit(ContextFlag::ResponseDirty),
            same_but_response(*old(self), *r),
            *final(self) == *final(r),
    {
        self.response.headers.push(header);
        self.flags.set(ContextFlag::ResponseDirty);
        self
    }

    /// Add a list of headers to the response.
    pub fn headers(&mut self, headers: Vec<Header>) -> (r: &mut Self)
        ensures
            r.response.headers@ == old(self).response.headers@ + headers@,
            r.response.status == old(self).response.status,
            r.response.reason == old(self).response.reason,
            r.response.data == old(self).response.data,
            r.response.flag == old(self).response.flag,
            r.flags.0 == old(self).flags.0 | flag_bit(ContextFlag::ResponseDirty),
            same_but_response(*old(self), *r),
            *final(self) == *final(r),
    {
        let mut headers = headers;
        self.response.headers.append(&mut headers);
        self.flags.set(ContextFlag::ResponseDirty);
        self
    }

    /// Add a cookie to the response, as a `Set-Cookie` header.
    pub fn cookie(&mut self, cookie: SetCookie) -> (r: &mut Self)
        ensures
            r.response.headers@.len() == old(self).response.headers@.len() + 1,
            r.response.headers@.take(old(self).response.headers@.len() as int)
                == old(self).response.headers@,
            r.response.headers@.last().name@ == "Set-Cookie"@,
            r.response.headers@.last().value@ == set_cookie_text(cookie),
            r.response.status == old(self).response.status,
            r.response.reason == old(self).response.reason,
            r.response.data == old(self).response.data,
            r.response.flag == old(self).response.flag,
            r.flags.0 == old(self).flags.0 | flag_bit(ContextFlag::ResponseDirty),
            same_but_response(*old(self), *r),
            *final(self) == *final(r),
    {
        let ghost before = self.response.headers@;
        self.response.headers.push(Header::new("Set-Cookie", cookie.to_string().as_str()));
        assert(self.response.headers@.take(before.len() as int) =~= before);
        self.flags.set(ContextFlag::ResponseDirty);
        self
    }

    /// Add a list of cookies to the response, each as a `Set-Cookie` header.
    pub fn cookies(&mut self, cookies: Vec<SetCookie>) -> (r: &mut Self)
        ensures
            r.response.headers@.len() == old(self).response.headers@.len() + cookies@.len(),
            r.response.headers@.take(old(self).response.headers@.len() as int)
                == old(self).response.headers@,
            forall|k: int|
                0 <= k < cookies@.len() ==> #[trigger] r.response.headers@[old(self).response.headers@.len() + k].name@
                    == "Set-Cookie"@ && r.response.headers@[old(self).response.headers@.len()
                    + k].value@ == set_cookie_text(cookies@[k]),
            r.response.status == old(self).response.status,
            r.response.reason == old(self).response.reason,
            r.response.data == old(self).response.data,
            r.response.flag == old(self).response.flag,
            r.flags.0 == old(self).flags.0 | flag_bit(ContextFlag::ResponseDirty),
            same_but_response(*old(self), *r),
            *final(self) == *final(r),
    {
        let ghost before = self.response.headers@;
        let n0 = self.response.headers.len();
        let mut i: usize = 0;
        while i < cookies.len()
            invariant
                i <= cookies@.len(),
                n0 == before.len(),
                self.response.headers@.len() == before.len() + i,
                self.response.headers@.take(before.len() as int) == before,
                forall|k: int|
                    0 <= k < i ==> #[trigger] self.response.headers@[before.len() + k].name@ == "Set-Cookie"@
                        && self.response.headers@[before.len() + k].value@ == set_cookie_text(cookies@[k]),
                self.response.status == old(self).response.status,
                self.response.reason == old(self).response.reason,
                self.response.data == old(self).response.data,
                self.response.flag == old(self).response.flag,
                self.flags == old(self).flags,
                same_but_response(*old(self), *self),
            decreases cookies.len() - i,
        {
            let ghost prev = self.response.headers@;
            self.response.headers.push(Header::new("Set-Cookie", cookies[i].to_string().as_str()));
            assert(self.response.headers@.take(before.len() as int) =~= prev.take(before.len() as int));
            i = i + 1;
        }
        self.flags.set(ContextFlag::ResponseDirty);
        self
    }

    /// Add a `Content-Type` header with the MIME type of `content_type`.
    /// This does not mark the response as modified.
    pub fn content(&mut self, content_type: Content) -> (r: &mut Self)
        ensures
            r.response.headers@.len() == old(self).response.headers@.len() + 1,
            r.response.headers@.take(old(self).response.headers@.len() as int)
                == old(self).response.headers@,
            r.response.headers@.last().name@ == "Content-Type"@,
            r.response.headers@.last().value@ == content_type_spec(content_type),
            r.response.status == old(self).response.status,
            r.response.reason == old(self).response.reason,
            r.response.data == old(self).response.data,
            r.response.flag == old(self).response.flag,
            r.flags == old(self).flags,
            same_but_response(*old(self), *r),
            *final(self) == *final(r),
    {
        let ghost before = self.response.headers@;
        self.response.headers.push(Header::new("Content-Type", content_type.as_type().as_str()));
        assert(self.response.headers@.take(before.len() as int) =~= before);
        self
    }

    /// Let a function change the response before it is sent, and mark the
    /// response as modified.
    pub fn modifier<F: FnOnce(Response) -> Response>(&mut self, modifier: F) -> (r: &mut Self)
        requires
            call_requires(modifier, (old(self).response,)),
        ensures
            call_ensures(modifier, (old(self).response,), r.response),
            r.flags.0 == old(self).flags.0 | flag_bit(ContextFlag::ResponseDirty),
            same_but_response(*old(self), *r),
            *final(self) == *final(r),
    {
        let mut res = Response::new();
        std::mem::swap(&mut res, &mut self.response);
        self.response = modifier(res);
        self.flags.set(ContextFlag::ResponseDirty);
        self
    }
}

/// Once the response of a context is written, every later attempt to send
/// one is refused with `ResponseAlreadySent`; other flags stay as they were.
pub proof fn lemma_send_once(bits: u8, g: ContextFlag)
    ensures
        has_flag(bits | flag_bit(ContextFlag::ResponseSent), ContextFlag::ResponseSent),
        has_flag(bits, g) ==> has_flag(bits | flag_bit(ContextFlag::ResponseSent), g),
{
    lemma_set_flag(bits, ContextFlag::ResponseSent, g);
}

} // verus!
