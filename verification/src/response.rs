//! HTTP responses as the server builds them.
use vstd::prelude::*;
use vstd::string::StringExecFns;
use vstd::utf8::encode_utf8;

use crate::extensions::content_type::{content_type_spec, Content};
use crate::header::Header;
use crate::http::status::Status;
use crate::text::{bytes_of, str_eq};

verus! {

/// The body of a response.
#[derive(Debug)]
pub enum ResponseBody {
    /// No body.
    Empty,
    /// A body held in memory and sent in one go.
    Static(Vec<u8>),
    /// A body read from a stream that the application holds and sent in chunks.
    Stream,
}

/// What to do with the connection once a response is written.
#[derive(Debug, Clone, Copy, PartialEq, Eq, Structural)]
pub enum ResponseFlag {
    /// Keep the connection as the request asks.
    Normal,
    /// Close the connection after this response.
    Close,
    /// The connection is finished and must not be used again.
    End,
}

/// An HTTP response.
#[derive(Debug)]
pub struct Response {
    /// Response status code.
    pub status: Status,
    /// Response reason phrase; the status's own when none.
    pub reason: Option<String>,
    /// Response data.
    pub data: ResponseBody,
    /// Response headers.
    pub headers: Vec<Header>,
    /// What to do with the connection afterwards.
    pub flag: ResponseFlag,
}

/// The length of a body held in memory (none for the others).
pub open spec fn body_bytes(b: ResponseBody) -> Seq<u8> {
    match b {
        ResponseBody::Static(d) => d@,
        _ => Seq::empty(),
    }
}

/// The index of the first header named `name`.
pub open spec fn header_index(hs: Seq<Header>, name: Seq<char>) -> Option<int>
    decreases hs.len(),
{
    if hs.len() == 0 {
        None
    } else if hs[0].name@ == name {
        Some(0)
    } else {
        match header_index(hs.drop_first(), name) {
            Some(i) => Some(i + 1),
            None => None,
        }
    }
}

pub proof fn lemma_header_index(hs: Seq<Header>, name: Seq<char>)
    ensures
        header_index(hs, name) matches Some(i) ==> 0 <= i < hs.len() && hs[i].name@ == name
            && forall|k: int| 0 <= k < i ==> hs[k].name@ != name,
        header_index(hs, name) is None ==> forall|k: int| 0 <= k < hs.len() ==> hs[k].name@ != name,
    decreases hs.len(),
{
    if hs.len() > 0 && hs[0].name@ != name {
        lemma_header_index(hs.drop_first(), name);
        assert forall|k: int| 1 <= k < hs.len() implies hs[k] == hs.drop_first()[k - 1] by {}
    }
}

/// Some header is named `name`.
pub open spec fn has_header_spec(hs: Seq<Header>, name: Seq<char>) -> bool {
    header_index(hs, name) is Some
}

/// Whether a list of headers holds one named `name`.
pub fn has_header(headers: &[Header], name: &str) -> (r: bool)
    ensures
        r == has_header_spec(headers@, name@),
{
    match find_header(headers, name) {
        Some(_) => true,
        None => false,
    }
}

/// The index of the first header named `name`.
pub fn find_header(headers: &[Header], name: &str) -> (r: Option<usize>)
    ensures
        r matches Some(i) ==> header_index(headers@, name@) == Some(i as int),
        r is None ==> header_index(headers@, name@) is None,
{
    proof {
        lemma_header_index(headers@, name@);
    }
    let mut i: usize = 0;
    while i < headers.len()
        invariant
            i <= headers@.len(),
            forall|k: int| 0 <= k < i ==> headers@[k].name@ != name@,
            header_index(headers@, name@) matches Some(j) ==> 0 <= j < headers@.len()
                && headers@[j].name@ == name@ && forall|k: int| 0 <= k < j ==> headers@[k].name@ != name@,
            header_index(headers@, name@) is None ==> forall|k: int| 0 <= k < headers@.len() ==> headers@[k].name@ != name@,
        decreases headers.len() - i,
    {
        if str_eq(headers[i].name.as_str(), name) {
            return Some(i);
        }
        i = i + 1;
    }
    None
}

/// The value of the first header named `name`.
pub fn get_header<'a>(headers: &'a [Header], name: &str) -> (r: Option<&'a String>)
    ensures
        match header_index(headers@, name@) {
            Some(i) => r matches Some(v) && v@ == headers@[i].value@,
            None => r is None,
        },
{
    proof {
        lemma_header_index(headers@, name@);
    }
    match find_header(headers, name) {
        Some(i) => Some(&headers[i].value),
        None => None,
    }
}

/// Copy of a list of headers.
pub fn copy_headers(hs: &Vec<Header>) -> (r: Vec<Header>)
    ensures
        r@ == hs@,
{
    let mut out: Vec<Header> = Vec::new();
    let mut i: usize = 0;
    while i < hs.len()
        invariant
            i <= hs@.len(),
            out@ == hs@.take(i as int),
        decreases hs.len() - i,
    {
        out.push(hs[i].duplicate());
        assert(hs@.take(i + 1) == hs@.take(i as int).push(hs@[i as int]));
        i = i + 1;
    }
    assert(hs@.take(hs@.len() as int) == hs@);
    out
}

/// Copy of a list of bytes.
pub fn copy_bytes(b: &Vec<u8>) -> (r: Vec<u8>)
    ensures
        r@ == b@,
{
    let mut out: Vec<u8> = Vec::new();
    let mut i: usize = 0;
    while i < b.len()
        invariant
            i <= b@.len(),
            out@ == b@.take(i as int),
        decreases b.len() - i,
    {
        out.push(b[i]);
        assert(b@.take(i + 1) == b@.take(i as int).push(b@[i as int]));
        i = i + 1;
    }
    assert(b@.take(b@.len() as int) == b@);
    out
}

/// Two responses say the same: status, reason, body, headers and flag.
pub open spec fn same_response(a: Response, b: Response) -> bool {
    &&& a.status == b.status
    &&& a.reason == b.reason
    &&& a.headers@ == b.headers@
    &&& a.flag == b.flag
    &&& match (a.data, b.data) {
        (ResponseBody::Static(x), ResponseBody::Static(y)) => x@ == y@,
        (ResponseBody::Empty, ResponseBody::Empty) => true,
        (ResponseBody::Stream, ResponseBody::Stream) => true,
        _ => false,
    }
}

impl Response {
    /// A copy of the response (a streamed body is marked streamed again).
    pub fn duplicate(&self) -> (r: Response)
        ensures
            same_response(r, *self),
    {
        let data = match &self.data {
            ResponseBody::Empty => ResponseBody::Empty,
            ResponseBody::Static(d) => ResponseBody::Static(copy_bytes(d)),
            ResponseBody::Stream => ResponseBody::Stream,
        };
        let reason = match &self.reason {
            Some(r) => Some(r.clone()),
            None => None,
        };
        Response { status: self.status, reason, data, headers: copy_headers(&self.headers), flag: self.flag }
    }

    /// A response with status 200, no reason phrase, no body and no headers.
    pub fn new() -> (r: Response)
        ensures
            r.status == Status::OK,
            r.reason is None,
            r.data is Empty,
            r.headers@.len() == 0,
            r.flag == ResponseFlag::Normal,
    {
        Response {
            status: Status::OK,
            reason: None,
            data: ResponseBody::Empty,
            headers: Vec::new(),
            flag: ResponseFlag::Normal,
        }
    }

    /// Set the status.
    pub fn status(self, status: Status) -> (r: Response)
        ensures
            r.status == status,
            r.reason == self.reason,
            r.data == self.data,
            r.headers == self.headers,
            r.flag == self.flag,
    {
        Response { status, ..self }
    }

    /// Set the reason phrase.
    pub fn reason(self, reason: &str) -> (r: Response)
        ensures
            r.reason matches Some(s) && s@ == reason@,
            r.status == self.status,
            r.data == self.data,
            r.headers == self.headers,
            r.flag == self.flag,
    {
        Response { reason: Some(String::from_str(reason)), ..self }
    }

    /// Set the body to the UTF-8 bytes of a text.
    pub fn text(self, text: &str) -> (r: Response)
        ensures
            r.data matches ResponseBody::Static(d) && d@ == encode_utf8(text@),
            r.status == self.status,
            r.reason == self.reason,
            r.headers == self.headers,
            r.flag == self.flag,
    {
        Response { data: ResponseBody::Static(bytes_of(text)), ..self }
    }

    /// Set the body to raw bytes.
    pub fn bytes(self, bytes: Vec<u8>) -> (r: Response)
        ensures
            r.data matches ResponseBody::Static(d) && d@ == bytes@,
            r.status == self.status,
            r.reason == self.reason,
            r.headers == self.headers,
            r.flag == self.flag,
    {
        Response { data: ResponseBody::Static(bytes), ..self }
    }

    /// Mark the body as streamed from a reader that the application holds.
    pub fn stream(self) -> (r: Response)
        ensures
            r.data is Stream,
            r.status == self.status,
            r.reason == self.reason,
            r.headers == self.headers,
            r.flag == self.flag,
    {
        Response { data: ResponseBody::Stream, ..self }
    }

    /// Add a header.
    pub fn header(self, header: Header) -> (r: Response)
        ensures
            r.headers@ == self.headers@.push(header),
            r.status == self.status,
            r.reason == self.reason,
            r.data == self.data,
            r.flag == self.flag,
    {
        let mut headers = self.headers;
        headers.push(header);
        Response { headers, ..self }
    }

    /// Add a `Content-Type` header with the MIME type of `content`.
    pub fn content(self, content: Content) -> (r: Response)
        ensures
            r.headers@.len() == self.headers@.len() + 1,
            r.headers@.take(self.headers@.len() as int) == self.headers@,
            r.headers@.last().name@ == "Content-Type"@,
            r.headers@.last().value@ == content_type_spec(content),
            r.status == self.status,
            r.reason == self.reason,
            r.data == self.data,
            r.flag == self.flag,
    {
        let h = Header::new("Content-Type", content.as_type().as_str());
        let r = self.header(h);
        assert(r.headers@.take(r.headers@.len() - 1) =~= r.headers@.drop_last());
        r
    }

    /// Set what happens to the connection after this response.
    pub fn flag(self, flag: ResponseFlag) -> (r: Response)
        ensures
            r.flag == flag,
            r.status == self.status,
            r.reason == self.reason,
            r.data == self.data,
            r.headers == self.headers,
    {
        Response { flag, ..self }
    }
}

} // verus!
