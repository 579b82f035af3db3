//! WebSocket frames and the opening handshake.
use vstd::prelude::*;
use vstd::string::StringExecFns;
use vstd::utf8::encode_utf8;

use crate::error::{Error, IoError};
use crate::header::Header;
use crate::internal::encoding::base64::{encode, encode_spec};
use crate::internal::encoding::sha1::{hash, sha1_spec};
use crate::internal::http::{from_utf8_lossy, utf8_lossy};
use crate::http::status::Status;
use crate::request::Request;
use crate::response::{get_header, header_index, Response};
use crate::text::{bytes_of, concat};

verus! {

/// What a client sent over a socket.
#[derive(Debug)]
pub enum TxType {
    /// The connection closed.
    Close,
    /// A text message.
    Text(String),
    /// A binary message.
    Binary(Vec<u8>),
}

/// What the server sends over a socket.
#[derive(Debug)]
pub enum TxTypeInternal {
    /// Close the connection.
    Close,
    /// A text message.
    Text(String),
    /// A binary message.
    Binary(Vec<u8>),
    /// A ping.
    Ping,
    /// A pong.
    Pong,
}

impl From<TxType> for TxTypeInternal {
    fn from(value: TxType) -> (r: TxTypeInternal) {
        match value {
            TxType::Close => TxTypeInternal::Close,
            TxType::Text(s) => TxTypeInternal::Text(s),
            TxType::Binary(b) => TxTypeInternal::Binary(b),
        }
    }
}

/// The message the server sends for a message of the client's kind.
pub open spec fn tx_internal(v: TxType) -> TxTypeInternal {
    match v {
        TxType::Close => TxTypeInternal::Close,
        TxType::Text(s) => TxTypeInternal::Text(s),
        TxType::Binary(b) => TxTypeInternal::Binary(b),
    }
}

impl vstd::std_specs::convert::FromSpecImpl<TxType> for TxTypeInternal {
    open spec fn obeys_from_spec() -> bool {
        true
    }

    open spec fn from_spec(v: TxType) -> TxTypeInternal {
        tx_internal(v)
    }
}

/// A WebSocket frame.
#[derive(Debug)]
pub struct Frame {
    /// This is the last frame of a message.
    pub fin: bool,
    /// The reserved bits.
    pub rsv: u8,
    /// What the frame carries.
    pub opcode: u8,
    /// The length of the payload, as the header gives it.
    pub payload_len: u64,
    /// The masking key, if the payload is masked.
    pub mask: Option<[u8; 4]>,
    /// The payload, unmasked.
    pub payload: Vec<u8>,
}

/// What the reader of a socket does with a frame it received.
#[derive(Debug)]
pub enum FrameAction {
    /// Hand the message to the user.
    Deliver(TxType),
    /// The client closed the connection: mark the stream closed and answer
    /// with a close frame.
    Close,
    /// Answer a ping with a pong.
    Pong,
    /// Nothing to do: a pong, or an opcode that is not known.
    Ignore,
    /// A fragment of a message; fragmented messages are not handled.
    Unsupported,
}

/// What to do with a frame received from the client.
pub fn frame_action(frame: Frame) -> (r: FrameAction)
    ensures
        !frame.fin || frame.opcode == 0 ==> r is Unsupported,
        frame.fin && frame.opcode == 1 ==> (r matches FrameAction::Deliver(TxType::Text(t)) && t@ == utf8_lossy(
            frame.payload@,
        )),
        frame.fin && frame.opcode == 2 ==> (r matches FrameAction::Deliver(TxType::Binary(b)) && b@ == frame.payload@),
        frame.fin && frame.opcode == 8 ==> r is Close,
        frame.fin && frame.opcode == 9 ==> r is Pong,
        frame.fin && frame.opcode != 0 && frame.opcode != 1 && frame.opcode != 2 && frame.opcode != 8
            && frame.opcode != 9 ==> r is Ignore,
{
    if !frame.fin || frame.opcode == 0 {
        return FrameAction::Unsupported;
    }
    if frame.opcode == 1 {
        FrameAction::Deliver(TxType::Text(from_utf8_lossy(frame.payload.as_slice())))
    } else if frame.opcode == 2 {
        FrameAction::Deliver(TxType::Binary(frame.payload))
    } else if frame.opcode == 8 {
        FrameAction::Close
    } else if frame.opcode == 9 {
        FrameAction::Pong
    } else {
        FrameAction::Ignore
    }
}

/// The frame the writer sends for a message, and whether the connection is
/// shut down after it (only after a close).
pub fn outgoing_frame(message: TxTypeInternal) -> (r: (Frame, bool))
    ensures
        r.0.fin && r.0.rsv == 0 && r.0.mask is None,
        r.0.payload_len == r.0.payload@.len(),
        r.1 <==> message is Close,
        match message {
            TxTypeInternal::Close => r.0.opcode == 8 && r.0.payload@.len() == 0,
            TxTypeInternal::Text(t) => r.0.opcode == 1 && r.0.payload@ == encode_utf8(t@),
            TxTypeInternal::Binary(b) => r.0.opcode == 2 && r.0.payload@ == b@,
            TxTypeInternal::Ping => r.0.opcode == 9 && r.0.payload@.len() == 0,
            TxTypeInternal::Pong => r.0.opcode == 10 && r.0.payload@.len() == 0,
        },
{
    match message {
        TxTypeInternal::Close => (Frame::close(), true),
        TxTypeInternal::Text(t) => (Frame::text(t), false),
        TxTypeInternal::Binary(b) => (Frame::binary(b), false),
        TxTypeInternal::Ping => (Frame::ping(), false),
        TxTypeInternal::Pong => (Frame::pong(), false),
    }
}

/// The big-endian value of bytes.
pub open spec fn be_value(s: Seq<u8>) -> nat
    decreases s.len(),
{
    if s.len() == 0 {
        0
    } else {
        be_value(s.drop_last()) * 256 + s.last() as nat
    }
}

/// 256 to the power `k`.
pub open spec fn pow256(k: nat) -> nat
    decreases k,
{
    if k == 0 {
        1
    } else {
        pow256((k - 1) as nat) * 256
    }
}

proof fn lemma_be_value_bound(s: Seq<u8>, k: nat)
    requires
        s.len() == k,
    ensures
        be_value(s) < pow256(k),
    decreases k,
{
    if k > 0 {
        lemma_be_value_bound(s.drop_last(), (k - 1) as nat);
        let a = be_value(s.drop_last());
        let p = pow256((k - 1) as nat);
        assert(a * 256 + s.last() < p * 256) by (nonlinear_arith)
            requires
                a < p,
                s.last() < 256,
        ;
    }
}

proof fn lemma_pow256_small(k: nat)
    requires
        k <= 7,
    ensures
        pow256(k) <= 0x100000000000000,
    decreases 7 - k,
{
    reveal_with_fuel(pow256, 8);
    if k < 7 {
        lemma_pow256_small((k + 1) as nat);
        assert(pow256(k + 1) == pow256(k) * 256);
    }
}

/// The length field of a frame header and where the masking key starts.
pub open spec fn length_field(buf: Seq<u8>) -> (nat, int) {
    let l = buf[1] & 0x7f;
    if l == 126 {
        (be_value(buf.subrange(2, 4)), 4)
    } else if l == 127 {
        (be_value(buf.subrange(2, 10)), 10)
    } else {
        (l as nat, 2)
    }
}

/// The buffer holds the whole header of a frame, and the masked payload it announces.
pub open spec fn frame_fits(buf: Seq<u8>) -> bool {
    &&& buf.len() >= 2
    &&& (buf[1] & 0x7f == 126 ==> buf.len() >= 4)
    &&& (buf[1] & 0x7f == 127 ==> buf.len() >= 10)
    &&& (buf[1] & 0x80 != 0 ==> length_field(buf).1 + 4 + length_field(buf).0 <= buf.len())
}

/// Bytes unmasked (or masked) with a 4-byte key.
pub open spec fn xor_spec(mask: Seq<u8>, data: Seq<u8>) -> Seq<u8> {
    Seq::new(data.len(), |i: int| data[i] ^ mask[i % 4])
}

/// The frame a buffer starts with: the first byte gives the fin bit, the
/// reserved bits and the opcode; the second the mask bit and the length or
/// its size; a frame without a mask is refused.
pub open spec fn frame_spec(buf: Seq<u8>) -> Option<(bool, u8, u8, nat, Seq<u8>, Seq<u8>)> {
    if buf[1] & 0x80 == 0 {
        None
    } else {
        let (len, off) = length_field(buf);
        let mask = buf.subrange(off, off + 4);
        Some((
            buf[0] & 0x80 != 0,
            (buf[0] & 0x70) >> 4u8,
            buf[0] & 0x0f,
            len,
            mask,
            xor_spec(mask, buf.subrange(off + 4, off + 4 + len)),
        ))
    }
}

/// XOR `data` with the repeated 4-byte `mask`.
pub fn xor_mask(mask: &[u8], data: &[u8]) -> (r: Vec<u8>)
    requires
        mask@.len() == 4,
    ensures
        r@ == xor_spec(mask@, data@),
{
    let mut decoded: Vec<u8> = Vec::new();
    let mut i: usize = 0;
    while i < data.len()
        invariant
            i <= data@.len(),
            mask@.len() == 4,
            decoded@.len() == i,
            forall|k: int| 0 <= k < i ==> decoded@[k] == data@[k] ^ mask@[k % 4],
        decreases data.len() - i,
    {
        decoded.push(data[i] ^ mask[i % 4]);
        i = i + 1;
    }
    assert(decoded@ =~= xor_spec(mask@, data@));
    decoded
}

/// Masking twice with the same key gives the data back.
pub proof fn lemma_xor_twice(mask: Seq<u8>, data: Seq<u8>)
    ensures
        xor_spec(mask, xor_spec(mask, data)) == data,
{
    assert forall|i: int| 0 <= i < data.len() implies xor_spec(mask, xor_spec(mask, data))[i] == data[i] by {
        let b = data[i];
        let m = mask[i % 4];
        assert((b ^ m) ^ m == b) by (bit_vector);
    }
    assert(xor_spec(mask, xor_spec(mask, data)) =~= data);
}

fn be_of(buf: &[u8], from: usize, to: usize) -> (r: u64)
    requires
        from <= to <= buf@.len(),
        to - from <= 8,
    ensures
        r == be_value(buf@.subrange(from as int, to as int)),
{
    let mut acc: u64 = 0;
    let mut i = from;
    while i < to
        invariant
            from <= i <= to <= buf@.len(),
            to - from <= 8,
            acc == be_value(buf@.subrange(from as int, i as int)),
        decreases to - i,
    {
        proof {
            lemma_be_value_bound(buf@.subrange(from as int, i as int), (i - from) as nat);
            lemma_pow256_small((i - from) as nat);
            assert(buf@.subrange(from as int, i + 1).drop_last() == buf@.subrange(from as int, i as int));
        }
        acc = acc * 256 + buf[i] as u64;
        i = i + 1;
    }
    acc
}

impl Frame {
    /// Read a frame from a buffer that holds it; a frame without a mask is refused.
    pub fn from_slice(buf: &[u8]) -> (r: Option<Frame>)
        requires
            frame_fits(buf@),
        ensures
            match frame_spec(buf@) {
                None => r is None,
                Some((fin, rsv, opcode, len, mask, payload)) => r matches Some(f) && f.fin == fin && f.rsv
                    == rsv && f.opcode == opcode && f.payload_len == len && (f.mask matches Some(m) && m@
                    == mask) && f.payload@ == payload,
            },
    {
        let fin = buf[0] & 0b1000_0000 != 0;
        let rsv = (buf[0] & 0b0111_0000) >> 4u8;
        let mask = buf[1] & 0b1000_0000 != 0;
        let opcode = buf[0] & 0b0000_1111;
        let l = buf[1] & 0b0111_1111;
        let (payload_len, offset): (u64, usize) = if l == 126 {
            (be_of(buf, 2, 4), 4)
        } else if l == 127 {
            (be_of(buf, 2, 10), 10)
        } else {
            (l as u64, 2)
        };
        if !mask {
            return None;
        }
        let key: [u8; 4] = [buf[offset], buf[offset + 1], buf[offset + 2], buf[offset + 3]];
        assert(key@ =~= buf@.subrange(offset as int, offset + 4));
        let mut decoded: Vec<u8> = Vec::new();
        let mut i: usize = 0;
        let n = payload_len as usize;
        while i < n
            invariant
                i <= n,
                n == payload_len,
                offset + 4 + n <= buf.len(),
                decoded@.len() == i,
                forall|k: int| 0 <= k < i ==> decoded@[k] == buf@[offset + 4 + k] ^ key@[k % 4],
            decreases n - i,
        {
            decoded.push(buf[i + offset + 4] ^ key[i % 4]);
            i = i + 1;
        }
        assert(decoded@ =~= xor_spec(key@, buf@.subrange(offset + 4, offset + 4 + payload_len)));
        Some(Frame { fin, rsv, opcode, payload_len, mask: Some(key), payload: decoded })
    }

    /// Whether a buffer holds a whole frame: the two first bytes, the length
    /// field, and, for a masked frame, the key and the payload.
    pub fn fits(buf: &[u8]) -> (r: bool)
        ensures
            r == frame_fits(buf@),
    {
        if buf.len() < 2 {
            return false;
        }
        let l = buf[1] & 0b0111_1111;
        if l == 126 && buf.len() < 4 {
            return false;
        }
        if l == 127 && buf.len() < 10 {
            return false;
        }
        if buf[1] & 0b1000_0000 == 0 {
            return true;
        }
        let (payload_len, offset): (u64, usize) = if l == 126 {
            (be_of(buf, 2, 4), 4)
        } else if l == 127 {
            (be_of(buf, 2, 10), 10)
        } else {
            (l as u64, 2)
        };
        (offset as u128) + 4 + (payload_len as u128) <= (buf.len() as u128)
    }

    /// A close frame.
    pub fn close() -> (r: Frame)
        ensures
            r.fin && r.rsv == 0 && r.opcode == 8 && r.payload_len == 0 && r.mask is None && r.payload@.len() == 0,
    {
        Frame { fin: true, rsv: 0, opcode: 8, payload_len: 0, mask: None, payload: Vec::new() }
    }

    /// A text frame.
    pub fn text(text: String) -> (r: Frame)
        ensures
            r.fin && r.rsv == 0 && r.opcode == 1 && r.mask is None,
            r.payload@ == encode_utf8(text@),
            r.payload_len == r.payload@.len(),
    {
        let payload = bytes_of(text.as_str());
        Frame { fin: true, rsv: 0, opcode: 1, payload_len: payload.len() as u64, mask: None, payload }
    }

    /// A binary frame.
    pub fn binary(binary: Vec<u8>) -> (r: Frame)
        ensures
            r.fin && r.rsv == 0 && r.opcode == 2 && r.mask is None,
            r.payload@ == binary@,
            r.payload_len == binary@.len(),
    {
        Frame { fin: true, rsv: 0, opcode: 2, payload_len: binary.len() as u64, mask: None, payload: binary }
    }

    /// A ping frame.
    pub fn ping() -> (r: Frame)
        ensures
            r.fin && r.rsv == 0 && r.opcode == 9 && r.payload_len == 0 && r.mask is None && r.payload@.len() == 0,
    {
        Frame { fin: true, rsv: 0, opcode: 9, payload_len: 0, mask: None, payload: Vec::new() }
    }

    /// A pong frame.
    pub fn pong() -> (r: Frame)
        ensures
            r.fin && r.rsv == 0 && r.opcode == 10 && r.payload_len == 0 && r.mask is None && r.payload@.len() == 0,
    {
        Frame { fin: true, rsv: 0, opcode: 10, payload_len: 0, mask: None, payload: Vec::new() }
    }

    /// The first reserved bit.
    pub fn rsv1(&self) -> (r: bool)
        ensures
            r == (self.rsv & 4 != 0),
    {
        self.rsv & 0b100 != 0
    }

    /// The second reserved bit.
    pub fn rsv2(&self) -> (r: bool)
        ensures
            r == (self.rsv & 2 != 0),
    {
        self.rsv & 0b010 != 0
    }

    /// The third reserved bit.
    pub fn rsv3(&self) -> (r: bool)
        ensures
            r == (self.rsv & 1 != 0),
    {
        self.rsv & 0b001 != 0
    }
}


/// The 2 big-endian bytes of a number below 65536.
pub open spec fn be2(x: u64) -> Seq<u8> {
    seq![((x >> 8u64) & 0xff) as u8, (x & 0xff) as u8]
}

/// The 8 big-endian bytes of a number.
pub open spec fn be8(x: u64) -> Seq<u8> {
    Seq::new(8, |i: int| ((x >> ((56 - 8 * i) as u64)) & 0xff) as u8)
}

/// The first byte of a frame: the fin bit, the reserved bits and the opcode.
pub open spec fn first_byte(fin: bool, rsv: u8, opcode: u8) -> u8 {
    ((if fin { 1u8 } else { 0u8 }) << 7u8) | (rsv << 4u8) | opcode
}

/// The bytes of a frame: the first byte; the mask bit with the length
/// (lengths up to 125 in that byte, up to 65535 as 126 and then 2 bytes,
/// larger ones as 127 and then 8 bytes); the masking key
/// and the masked payload, or the payload.
pub open spec fn frame_bytes(fin: bool, rsv: u8, opcode: u8, len: u64, mask: Option<Seq<u8>>, payload: Seq<u8>) -> Seq<u8> {
    let m: u8 = if mask is Some { 0x80u8 } else { 0u8 };
    let head = if len <= 125 {
        seq![first_byte(fin, rsv, opcode), m | (len as u8)]
    } else if len <= 65535 {
        seq![first_byte(fin, rsv, opcode), m | 126u8] + be2(len)
    } else {
        seq![first_byte(fin, rsv, opcode), m | 127u8] + be8(len)
    };
    head + match mask {
        Some(k) => k + xor_spec(k, payload),
        None => payload,
    }
}

/// The bytes of a frame as [`Frame::to_bytes`] writes them.
pub open spec fn frame_view_bytes(f: Frame) -> Seq<u8> {
    frame_bytes(
        f.fin,
        f.rsv,
        f.opcode,
        f.payload_len,
        match f.mask {
            Some(k) => Some(k@),
            None => None,
        },
        f.payload@,
    )
}

fn push_all(buf: &mut Vec<u8>, data: &[u8])
    ensures
        final(buf)@ == old(buf)@ + data@,
{
    let mut i: usize = 0;
    while i < data.len()
        invariant
            i <= data@.len(),
            buf@ == old(buf)@ + data@.take(i as int),
        decreases data.len() - i,
    {
        buf.push(data[i]);
        assert(data@.take(i + 1) == data@.take(i as int).push(data@[i as int]));
        i = i + 1;
    }
    assert(data@.take(data@.len() as int) == data@);
}

impl Frame {
    /// The bytes of the frame.
    pub fn to_bytes(&self) -> (r: Vec<u8>)
        ensures
            r@ == frame_view_bytes(*self),
    {
        let mut buf: Vec<u8> = Vec::new();
        let fin: u8 = if self.fin { 1 } else { 0 };
        buf.push(fin << 7u8 | self.rsv << 4u8 | self.opcode);
        let m: u8 = match self.mask {
            Some(_) => 0x80,
            None => 0,
        };
        if self.payload_len <= 125 {
            buf.push(m | self.payload_len as u8);
        } else if self.payload_len <= 65535 {
            buf.push(m | 126);
            let ghost start = buf@;
            buf.push(((self.payload_len >> 8) & 0xff) as u8);
            buf.push((self.payload_len & 0xff) as u8);
            assert(buf@ =~= start + be2(self.payload_len));
        } else {
            buf.push(m | 127);
            let mut i: u64 = 0;
            let ghost start = buf@;
            while i < 8
                invariant
                    i <= 8,
                    buf@ == start + be8(self.payload_len).take(i as int),
                decreases 8 - i,
            {
                let b = ((self.payload_len >> (56 - 8 * i)) & 0xff) as u8;
                buf.push(b);
                assert(be8(self.payload_len).take(i + 1) =~= be8(self.payload_len).take(i as int).push(b));
                i = i + 1;
            }
            assert(be8(self.payload_len).take(8) =~= be8(self.payload_len));
        }
        let ghost head = buf@;
        match &self.mask {
            Some(mask) => {
                push_all(&mut buf, mask.as_slice());
                let x = xor_mask(mask.as_slice(), self.payload.as_slice());
                push_all(&mut buf, x.as_slice());
            },
            None => push_all(&mut buf, self.payload.as_slice()),
        }
        proof {
            assert(buf@ =~= frame_view_bytes(*self));
        }
        buf
    }
}

/// The GUID that the accept key of a WebSocket handshake is made with.
pub open spec fn ws_guid() -> Seq<char> {
    "258EAFA5-E914-47DA-95CA-C5AB0DC85B11"@
}

/// The key of a WebSocket handshake, from its `Sec-WebSocket-Key` header.
pub fn handshake_key(req: &Request) -> (r: Result<&String, Error>)
    ensures
        match header_index(req.headers@, "Sec-WebSocket-Key"@) {
            Some(i) => r matches Ok(k) && k@ == req.headers@[i].value@,
            None => r matches Err(Error::Io(e)) && e.message@ == "Missing Sec-WebSocket-Key` Header."@,
        },
{
    match get_header(req.headers.as_slice(), "Sec-WebSocket-Key") {
        Some(k) => Ok(k),
        None => Err(Error::Io(IoError {
            kind: String::from_str("Other"),
            message: String::from_str("Missing Sec-WebSocket-Key` Header."),
        })),
    }
}

/// What the accept key is the hash of: the client's key followed by the GUID.
pub fn accept_input(key: &str) -> (r: Vec<u8>)
    ensures
        r@ == encode_utf8(key@ + ws_guid()),
{
    let s = concat(key, "258EAFA5-E914-47DA-95CA-C5AB0DC85B11");
    bytes_of(s.as_str())
}

/// The accept key for the client's key: the Base64 of the SHA-1 of the key
/// followed by the GUID. SHA-1 takes messages of less than 2^64 bits.
pub fn accept_key(key: &str) -> (r: String)
    requires
        encode_utf8(key@ + ws_guid()).len() <= u64::MAX / 8,
    ensures
        r@ == encode_spec(sha1_spec(encode_utf8(key@ + ws_guid()))),
{
    let input = accept_input(key);
    let digest = hash(input.as_slice());
    encode(digest.as_slice())
}

/// The response that accepts a WebSocket connection with the accept key
/// `accept`: status 101 and the upgrade headers.
pub fn upgrade_response(accept: &str) -> (r: Response)
    ensures
        r.status == Status::SwitchingProtocols,
        r.data is Empty,
        r.headers@.len() == 4,
        r.headers@[0].name@ == "Upgrade"@ && r.headers@[0].value@ == "websocket"@,
        r.headers@[1].name@ == "Connection"@ && r.headers@[1].value@ == "Upgrade"@,
        r.headers@[2].name@ == "Sec-WebSocket-Accept"@ && r.headers@[2].value@ == accept@,
        r.headers@[3].name@ == "Sec-WebSocket-Version"@ && r.headers@[3].value@ == "13"@,
{
    Response::new()
        .status(Status::SwitchingProtocols)
        .header(Header::new("Upgrade", "websocket"))
        .header(Header::new("Connection", "Upgrade"))
        .header(Header::new("Sec-WebSocket-Accept", accept))
        .header(Header::new("Sec-WebSocket-Version", "13"))
}


proof fn lemma_be2(x: u64)
    requires
        x <= 65535,
    ensures
        be_value(be2(x)) == x,
{
    let s = be2(x);
    let hi = (x >> 8u64) & 0xff;
    let lo = x & 0xff;
    assert(hi < 256 && lo < 256 && x == hi * 256 + lo) by (bit_vector)
        requires
            x <= 65535,
            hi == (x >> 8u64) & 0xff,
            lo == x & 0xff,
    ;
    assert(s[0] == hi && s[1] == lo);
    let t1 = s.drop_last();
    assert(t1.len() == 1 && t1.last() == s[0]);
    assert(be_value(t1.drop_last()) == 0);
    assert(be_value(t1) == hi);
}

proof fn lemma_be8(x: u64)
    ensures
        be_value(be8(x)) == x,
{
    let s = be8(x);
    let b0 = (x >> 56u64) & 0xff;
    let b1 = (x >> 48u64) & 0xff;
    let b2 = (x >> 40u64) & 0xff;
    let b3 = (x >> 32u64) & 0xff;
    let b4 = (x >> 24u64) & 0xff;
    let b5 = (x >> 16u64) & 0xff;
    let b6 = (x >> 8u64) & 0xff;
    let b7 = (x >> 0u64) & 0xff;
    assert(b0 < 256 && b1 < 256 && b2 < 256 && b3 < 256 && b4 < 256 && b5 < 256 && b6 < 256 && b7 < 256) by (bit_vector)
        requires
            b0 == (x >> 56u64) & 0xff,
            b1 == (x >> 48u64) & 0xff,
            b2 == (x >> 40u64) & 0xff,
            b3 == (x >> 32u64) & 0xff,
            b4 == (x >> 24u64) & 0xff,
            b5 == (x >> 16u64) & 0xff,
            b6 == (x >> 8u64) & 0xff,
            b7 == (x >> 0u64) & 0xff,
    ;
    assert(x == ((((((b0 * 256 + b1) * 256 + b2) * 256 + b3) * 256 + b4) * 256 + b5) * 256 + b6) * 256 + b7) by (bit_vector)
        requires
            b0 == (x >> 56u64) & 0xff,
            b1 == (x >> 48u64) & 0xff,
            b2 == (x >> 40u64) & 0xff,
            b3 == (x >> 32u64) & 0xff,
            b4 == (x >> 24u64) & 0xff,
            b5 == (x >> 16u64) & 0xff,
            b6 == (x >> 8u64) & 0xff,
            b7 == (x >> 0u64) & 0xff,
    ;
    assert(s[0] == b0 && s[1] == b1 && s[2] == b2 && s[3] == b3);
    assert(s[4] == b4 && s[5] == b5 && s[6] == b6 && s[7] == b7);
    let t7 = s.drop_last();
    let t6 = t7.drop_last();
    let t5 = t6.drop_last();
    let t4 = t5.drop_last();
    let t3 = t4.drop_last();
    let t2 = t3.drop_last();
    let t1 = t2.drop_last();
    let t0 = t1.drop_last();
    assert(t0.len() == 0);
    assert(t1.len() == 1 && t1.last() == s[0]);
    assert(t2.last() == s[1]);
    assert(t3.last() == s[2]);
    assert(t4.last() == s[3]);
    assert(t5.last() == s[4]);
    assert(t6.last() == s[5]);
    assert(t7.last() == s[6]);
    assert(s.last() == s[7]);
    assert(be_value(t0) == 0);
    assert(s[0] as nat == b0);
    assert(be_value(t1) == b0);
    assert(be_value(t2) == b0 * 256 + b1);
    assert(be_value(t3) == (b0 * 256 + b1) * 256 + b2);
    assert(be_value(t4) == ((b0 * 256 + b1) * 256 + b2) * 256 + b3);
    assert(be_value(t5) == (((b0 * 256 + b1) * 256 + b2) * 256 + b3) * 256 + b4);
    assert(be_value(t6) == ((((b0 * 256 + b1) * 256 + b2) * 256 + b3) * 256 + b4) * 256 + b5);
    assert(be_value(t7) == (((((b0 * 256 + b1) * 256 + b2) * 256 + b3) * 256 + b4) * 256 + b5) * 256 + b6);
}

/// A masked frame whose payload is as long as its length says, and whose
/// reserved bits and opcode fit their fields, is read back from its bytes as
/// the same frame, whichever of the three forms its length is written in.
pub proof fn lemma_frame_round_trip(fin: bool, rsv: u8, opcode: u8, len: u64, mask: Seq<u8>, payload: Seq<u8>)
    requires
        rsv < 8,
        opcode < 16,
        mask.len() == 4,
        payload.len() == len,
    ensures
        frame_fits(frame_bytes(fin, rsv, opcode, len, Some(mask), payload)),
        frame_spec(frame_bytes(fin, rsv, opcode, len, Some(mask), payload)) == Some(
            (fin, rsv, opcode, len as nat, mask, payload),
        ),
{
    let b = frame_bytes(fin, rsv, opcode, len, Some(mask), payload);
    let fb: u8 = if fin { 1u8 } else { 0u8 };
    let b0 = first_byte(fin, rsv, opcode);
    assert(b0 == (fb << 7u8) | (rsv << 4u8) | opcode);
    assert((((fb << 7u8) | (rsv << 4u8) | opcode) & 0x80 != 0) == (fb == 1)) by (bit_vector)
        requires
            fb <= 1,
            rsv < 8,
            opcode < 16,
    ;
    assert((((fb << 7u8) | (rsv << 4u8) | opcode) & 0x70) >> 4u8 == rsv) by (bit_vector)
        requires
            fb <= 1,
            rsv < 8,
            opcode < 16,
    ;
    assert(((fb << 7u8) | (rsv << 4u8) | opcode) & 0x0f == opcode) by (bit_vector)
        requires
            fb <= 1,
            rsv < 8,
            opcode < 16,
    ;
    let body = mask + xor_spec(mask, payload);
    if len <= 125 {
        let l8 = len as u8;
        assert((0x80u8 | l8) & 0x80 != 0 && (0x80u8 | l8) & 0x7f == l8) by (bit_vector)
            requires
                l8 <= 125,
        ;
        assert(b == seq![b0, 0x80u8 | l8] + body);
        assert(b.subrange(2, 6) =~= mask);
        assert(b.subrange(6, 6 + len) =~= xor_spec(mask, payload));
    } else if len <= 65535 {
        assert((0x80u8 | 126u8) & 0x80 != 0 && (0x80u8 | 126u8) & 0x7f == 126) by (bit_vector);
        assert(b == seq![b0, 0x80u8 | 126u8] + be2(len) + body);
        assert(b.subrange(2, 4) =~= be2(len));
        lemma_be2(len);
        assert(b.subrange(4, 8) =~= mask);
        assert(b.subrange(8, 8 + len) =~= xor_spec(mask, payload));
    } else {
        assert((0x80u8 | 127u8) & 0x80 != 0 && (0x80u8 | 127u8) & 0x7f == 127) by (bit_vector);
        assert(b == seq![b0, 0x80u8 | 127u8] + be8(len) + body);
        assert(b.subrange(2, 10) =~= be8(len));
        lemma_be8(len);
        assert(b.subrange(10, 14) =~= mask);
        assert(b.subrange(14, 14 + len) =~= xor_spec(mask, payload));
    }
    lemma_xor_twice(mask, payload);
}

} // verus!
