//! The HTTP Range header, as defined in RFC 9110.
use vstd::prelude::*;
use vstd::string::StringExecFns;
use vstd::utf8::encode_utf8;

use std::ops::RangeInclusive;

use crate::header::Header;
use crate::http::status::Status;
use crate::http::method::Method;
use crate::request::Request;
use crate::response::{body_bytes, get_header, has_header, has_header_spec, header_index, Response, ResponseBody};
use crate::text::{
    chars_of, decimal, lemma_split_char_nonempty, push_decimal, u64_to_string, parse_unsigned, parse_unsigned_spec, split_char,
    split_chars, strip_prefix, strip_prefix_spec, trim_class, trim_spec, CharClass,
};

verus! {

/// Implements the HTTP Range header.
pub struct Range {
    /// Reject requests with invalid range headers (416 Range Not Satisfiable)
    /// rather than returning the full response.
    reject_invalid: bool,
}

impl Range {
    /// Whether invalid range headers are answered with 416.
    pub closed spec fn rejects_invalid(&self) -> bool {
        self.reject_invalid
    }

    /// Create a new Range middleware with default settings: invalid headers are ignored.
    pub fn new() -> (r: Range)
        ensures
            !r.rejects_invalid(),
    {
        Range { reject_invalid: false }
    }

    /// Reject requests with invalid range headers (416 Range Not Satisfiable)
    /// rather than returning the full response.
    pub fn reject_invalid(self) -> (r: Range)
        ensures
            r.rejects_invalid(),
    {
        Range { reject_invalid: true }
    }
}

/// What can be wrong with a Range header.
#[derive(Debug, Clone, Copy, PartialEq, Eq, Structural)]
pub enum RangeError {
    MissingBytesPrefix,
    MalformedRange,
    InvalidNumber,
    EmptyRange,
    UnorderedRange,
    OverlappingRange,
    InvalidRange,
}

/// The message of a range error.
pub open spec fn range_error_message(e: RangeError) -> Seq<char> {
    "Range header: "@ + match e {
        RangeError::MissingBytesPrefix => "Missing bytes prefix"@,
        RangeError::MalformedRange => "Malformed range"@,
        RangeError::InvalidNumber => "Invalid number"@,
        RangeError::EmptyRange => "No ranges specified"@,
        RangeError::UnorderedRange => "Ranges are not ordered"@,
        RangeError::OverlappingRange => "Ranges overlap"@,
        RangeError::InvalidRange => "Invalid range"@,
    }
}

impl RangeError {
    /// The message of the error, as `Display` writes it.
    pub fn message(&self) -> (r: String)
        ensures
            r@ == range_error_message(*self),
    {
        let tail = match self {
            RangeError::MissingBytesPrefix => "Missing bytes prefix",
            RangeError::MalformedRange => "Malformed range",
            RangeError::InvalidNumber => "Invalid number",
            RangeError::EmptyRange => "No ranges specified",
            RangeError::UnorderedRange => "Ranges are not ordered",
            RangeError::OverlappingRange => "Ranges overlap",
            RangeError::InvalidRange => "Invalid range",
        };
        let mut out = String::from_str("Range header: ");
        out.append(tail);
        out
    }
}

/// The byte ranges of a Range header, each with its first and last byte.
#[derive(Debug, PartialEq, Eq)]
pub struct Ranges {
    /// The ranges, in order.
    pub ranges: Vec<RangeInclusive<usize>>,
}

/// The bounds of a list of ranges.
pub open spec fn bounds(v: Seq<RangeInclusive<usize>>) -> Seq<(int, int)> {
    v.map_values(|r: RangeInclusive<usize>| (r@.start as int, r@.end as int))
}

/// `RangeInclusive::start`: the first value of the range.
#[verifier::external_body]
fn range_start(r: &RangeInclusive<usize>) -> (s: usize)
    ensures
        s == r@.start,
{
    *r.start()
}

/// `RangeInclusive::end`: the last value of the range.
#[verifier::external_body]
fn range_end(r: &RangeInclusive<usize>) -> (e: usize)
    ensures
        e == r@.end,
{
    *r.end()
}

/// A number in a range: trimmed of whitespace, then parsed as a `usize`.
pub open spec fn range_number(s: Seq<char>) -> Option<nat> {
    parse_unsigned_spec(trim_spec(s, CharClass::Whitespace), 10, usize::MAX as nat)
}

/// One range, `start-end`: the parts around the first two dashes are the bounds.
pub open spec fn parse_range_spec(s: Seq<char>) -> Result<(int, int), RangeError> {
    let parts = split_char(s, '-');
    match range_number(parts[0]) {
        None => Err(RangeError::InvalidNumber),
        Some(a) => if parts.len() < 2 {
            Err(RangeError::MalformedRange)
        } else {
            match range_number(parts[1]) {
                None => Err(RangeError::InvalidNumber),
                Some(b) => Ok((a as int, b as int)),
            }
        },
    }
}

/// The ranges of the comma-separated pieces; the first piece that fails gives the error.
pub open spec fn parse_ranges_spec(pieces: Seq<Seq<char>>) -> Result<Seq<(int, int)>, RangeError>
    decreases pieces.len(),
{
    if pieces.len() == 0 {
        Ok(Seq::empty())
    } else {
        match parse_ranges_spec(pieces.drop_last()) {
            Err(e) => Err(e),
            Ok(rs) => match parse_range_spec(pieces.last()) {
                Err(e) => Err(e),
                Ok(r) => Ok(rs.push(r)),
            },
        }
    }
}

/// The first fault among the ranges from `i` on, each compared with the one before it.
pub open spec fn order_fault_from(rs: Seq<(int, int)>, i: int) -> Option<RangeError>
    decreases rs.len() - i,
{
    if i >= rs.len() || i < 1 {
        None
    } else if rs[i].0 > rs[i].1 {
        Some(RangeError::InvalidRange)
    } else if rs[i].0 < rs[i - 1].0 {
        Some(RangeError::UnorderedRange)
    } else if rs[i].0 <= rs[i - 1].1 {
        Some(RangeError::OverlappingRange)
    } else {
        order_fault_from(rs, i + 1)
    }
}

/// What is wrong with a list of ranges, if anything: none at all, a range
/// that ends before it starts, one that starts before the one before it, or
/// one that starts within the one before it.
pub open spec fn order_fault(rs: Seq<(int, int)>) -> Option<RangeError> {
    if rs.len() == 0 {
        Some(RangeError::EmptyRange)
    } else if rs[0].0 > rs[0].1 {
        Some(RangeError::InvalidRange)
    } else {
        order_fault_from(rs, 1)
    }
}

/// What a Range header gives: `bytes=` and then comma-separated ranges that
/// parse, each in order after the one before it.
pub open spec fn ranges_spec(raw: Seq<char>) -> Result<Seq<(int, int)>, RangeError> {
    match strip_prefix_spec(raw, "bytes="@) {
        None => Err(RangeError::MissingBytesPrefix),
        Some(rest) => match parse_ranges_spec(split_char(rest, ',')) {
            Err(e) => Err(e),
            Ok(rs) => match order_fault(rs) {
                Some(e) => Err(e),
                None => Ok(rs),
            },
        },
    }
}

proof fn lemma_parse_ranges_prefix_err(pieces: Seq<Seq<char>>, k: int)
    requires
        0 <= k <= pieces.len(),
        parse_ranges_spec(pieces.take(k)) is Err,
    ensures
        parse_ranges_spec(pieces) == parse_ranges_spec(pieces.take(k)),
    decreases pieces.len() - k,
{
    if k < pieces.len() {
        assert(pieces.take(k + 1).drop_last() == pieces.take(k));
        lemma_parse_ranges_prefix_err(pieces, k + 1);
    } else {
        assert(pieces.take(k) == pieces);
    }
}

proof fn lemma_order_fault_from(rs: Seq<(int, int)>, i: int)
    requires
        1 <= i,
        order_fault_from(rs, i) is None,
    ensures
        forall|k: int| i <= k < rs.len() ==> rs[k].0 <= rs[k].1 && rs[k - 1].1 < rs[k].0,
    decreases rs.len() - i,
{
    if i < rs.len() {
        lemma_order_fault_from(rs, i + 1);
    }
}

/// The ranges of a valid Range header each start no later than they end,
/// and each starts after the one before it ends.
pub proof fn lemma_ranges_ordered(raw: Seq<char>)
    ensures
        ranges_spec(raw) matches Ok(rs) ==> {
            &&& rs.len() > 0
            &&& forall|k: int| 0 <= k < rs.len() ==> rs[k].0 <= rs[k].1
            &&& forall|j: int, k: int| 0 <= j < k < rs.len() ==> rs[j].1 < rs[k].0
        },
{
    if let Ok(rs) = ranges_spec(raw) {
        lemma_order_fault_from(rs, 1);
        assert forall|j: int, k: int| 0 <= j < k < rs.len() implies rs[j].1 < rs[k].0 by {
            lemma_ordered_chain(rs, j, k);
        }
    }
}

proof fn lemma_ordered_chain(rs: Seq<(int, int)>, j: int, k: int)
    requires
        0 <= j < k < rs.len(),
        forall|m: int| 0 <= m < rs.len() ==> rs[m].0 <= rs[m].1,
        forall|m: int| 1 <= m < rs.len() ==> rs[m - 1].1 < rs[m].0,
    ensures
        rs[j].1 < rs[k].0,
    decreases k - j,
{
    if k > j + 1 {
        lemma_ordered_chain(rs, j, k - 1);
        assert(rs[k - 1].0 <= rs[k - 1].1);
    }
}

fn range_number_of(s: &str) -> (r: Option<usize>)
    ensures
        r matches Some(x) ==> range_number(s@) == Some(x as nat),
        r is None ==> range_number(s@) is None,
{
    let t = trim_class(s, CharClass::Whitespace);
    let v = chars_of(t.as_str());
    assert(v@.subrange(0, v@.len() as int) == v@);
    match parse_unsigned(v.as_slice(), 0, v.len(), 10, usize::MAX as u64) {
        Some(x) => Some(x as usize),
        None => None,
    }
}

fn parse_range(s: &str) -> (r: Result<(usize, usize), RangeError>)
    ensures
        match r {
            Ok((a, b)) => parse_range_spec(s@) == Ok::<(int, int), RangeError>((a as int, b as int)),
            Err(e) => parse_range_spec(s@) == Err::<(int, int), RangeError>(e),
        },
{
    let v = chars_of(s);
    let parts = split_chars(v.as_slice(), '-');
    proof {
        lemma_split_char_nonempty(s@, '-');
    }
    assert(parts.deep_view()[0] == parts@[0]@);
    let a = match range_number_of(parts[0].as_str()) {
        Some(a) => a,
        None => return Err(RangeError::InvalidNumber),
    };
    if parts.len() < 2 {
        return Err(RangeError::MalformedRange);
    }
    assert(parts.deep_view()[1] == parts@[1]@);
    let b = match range_number_of(parts[1].as_str()) {
        Some(b) => b,
        None => return Err(RangeError::InvalidNumber),
    };
    Ok((a, b))
}

impl Ranges {
    /// Parse a Range header.
    pub fn from_header(raw: &str) -> (r: Result<Ranges, RangeError>)
        ensures
            match r {
                Ok(rs) => ranges_spec(raw@) == Ok::<Seq<(int, int)>, RangeError>(bounds(rs.ranges@)),
                Err(e) => ranges_spec(raw@) == Err::<Seq<(int, int)>, RangeError>(e),
            },
    {
        let rest = match strip_prefix(raw, "bytes=") {
            Some(r) => r,
            None => return Err(RangeError::MissingBytesPrefix),
        };
        let rv = chars_of(rest.as_str());
        let pieces = split_chars(rv.as_slice(), ',');
        let ghost all = pieces.deep_view();
        let mut ranges: Vec<RangeInclusive<usize>> = Vec::new();
        let mut i: usize = 0;
        assert(all.take(0) =~= Seq::<Seq<char>>::empty());
        assert(bounds(ranges@) =~= Seq::<(int, int)>::empty());
        while i < pieces.len()
            invariant
                strip_prefix_spec(raw@, "bytes="@) == Some(rest@),
                i <= all.len(),
                all == pieces.deep_view(),
                all == split_char(rest@, ','),
                parse_ranges_spec(all.take(i as int)) == Ok::<Seq<(int, int)>, RangeError>(bounds(ranges@)),
            decreases pieces.len() - i,
        {
            assert(all.take(i + 1).drop_last() == all.take(i as int));
            assert(all.take(i + 1).last() == pieces@[i as int]@);
            match parse_range(pieces[i].as_str()) {
                Ok((a, b)) => {
                    let ghost before = ranges@;
                    ranges.push(RangeInclusive::new(a, b));
                    assert(bounds(ranges@) =~= bounds(before).push((a as int, b as int)));
                },
                Err(e) => {
                    proof {
                        lemma_parse_ranges_prefix_err(all, i + 1);
                    }
                    return Err(e);
                },
            }
            i = i + 1;
        }
        assert(all.take(all.len() as int) == all);
        let ghost rs = bounds(ranges@);
        if ranges.len() == 0 {
            return Err(RangeError::EmptyRange);
        }
        let mut last_start = range_start(&ranges[0]);
        let mut last_end = range_end(&ranges[0]);
        if last_start > last_end {
            return Err(RangeError::InvalidRange);
        }
        let mut k: usize = 1;
        while k < ranges.len()
            invariant
                1 <= k <= ranges@.len(),
                strip_prefix_spec(raw@, "bytes="@) == Some(rest@),
                parse_ranges_spec(split_char(rest@, ',')) == Ok::<Seq<(int, int)>, RangeError>(rs),
                rs == bounds(ranges@),
                order_fault(rs) == order_fault_from(rs, k as int),
                last_start == rs[k - 1].0,
                last_end == rs[k - 1].1,
            decreases ranges.len() - k,
        {
            let s = range_start(&ranges[k]);
            let e = range_end(&ranges[k]);
            if s > e {
                return Err(RangeError::InvalidRange);
            }
            if s < last_start {
                return Err(RangeError::UnorderedRange);
            }
            if s <= last_end {
                return Err(RangeError::OverlappingRange);
            }
            last_start = s;
            last_end = e;
            k = k + 1;
        }
        Ok(Ranges { ranges })
    }
}


// ---------------------------------------------------------------------------
// Serving ranges
// ---------------------------------------------------------------------------

/// Reads the requested ranges of a response body.
pub struct RangeResponse {
    entity_length: usize,
    parts: Ranges,
    data: ResponseBody,
    part: usize,
    byte: usize,
}

/// What reading the parts of a static body into a buffer of `n` bytes
/// gives, from part `part` and byte `byte`, with `read` bytes written to `buf`
/// so far: the final part, byte, returned count and buffer; `None` where the
/// reader fails (a copy that would leave the buffer or the body).
pub open spec fn parts_read(
    ranges: Seq<(int, int)>,
    data: Seq<u8>,
    n: int,
    part: int,
    byte: int,
    read: int,
    buf: Seq<u8>,
) -> Option<(int, int, int, Seq<u8>)>
    decreases ranges.len() - part, n - read,
{
    if read >= n || part < 0 || part >= ranges.len() {
        Some((part, byte, read, buf))
    } else {
        let s = ranges[part].0;
        let e = ranges[part].1;
        if byte < s {
            Some((part, s, 0, buf))
        } else if byte >= e {
            if part + 1 >= ranges.len() {
                Some((part + 1, 0, read, buf))
            } else {
                parts_read(ranges, data, n, part + 1, 0, read, buf)
            }
        } else if e >= byte + (n - read) || e >= data.len() || byte < 0 || read < 0 || byte + 2 * (
        e - byte + 1) > usize::MAX {
            None
        } else {
            let copied = e - byte + 1;
            parts_read(
                ranges,
                data,
                n,
                part,
                byte + 2 * copied,
                read + copied,
                buf.take(read) + data.subrange(byte, e + 1) + buf.skip(read + copied),
            )
        }
    }
}

impl RangeResponse {
    /// The byte ranges to read.
    pub closed spec fn ranges(&self) -> Seq<(int, int)> {
        bounds(self.parts.ranges@)
    }

    /// The body the ranges are read from.
    pub closed spec fn body(&self) -> ResponseBody {
        self.data
    }

    /// The length of the whole body.
    pub closed spec fn entity(&self) -> usize {
        self.entity_length
    }

    /// The part being read.
    pub closed spec fn current_part(&self) -> int {
        self.part as int
    }

    /// The byte of the body the reader stands at.
    pub closed spec fn current_byte(&self) -> int {
        self.byte as int
    }

    /// A reader of `parts` of `data`, whose whole length is `entity_length`, at its start.
    pub fn new(entity_length: usize, parts: Ranges, data: ResponseBody) -> (r: RangeResponse)
        ensures
            r.ranges() == bounds(parts.ranges@),
            r.body() == data,
            r.entity() == entity_length,
            r.current_part() == 0,
            r.current_byte() == 0,
    {
        RangeResponse { entity_length, parts, data, part: 0, byte: 0 }
    }

    /// There is exactly one range.
    pub fn is_single(&self) -> (r: bool)
        ensures
            r == (self.ranges().len() == 1),
    {
        self.parts.ranges.len() == 1
    }

    /// Move to byte `start` of a body held in memory.
    pub fn seek(&mut self, start: usize) -> (r: bool)
        requires
            start >= old(self).current_byte(),
            !(old(self).body() is Stream),
        ensures
            r,
            final(self).current_byte() == start,
            final(self).current_part() == old(self).current_part(),
            final(self).ranges() == old(self).ranges(),
            final(self).body() == old(self).body(),
            final(self).entity() == old(self).entity(),
    {
        self.byte = start;
        true
    }

    /// Copy the body from the current byte through byte `end` into `into`,
    /// starting at `offset`; the bytes must fit.
    fn read_at(&mut self, into: &mut [u8], offset: usize, end: usize) -> (r: usize)
        requires
            old(self).body() is Static,
            offset < old(into).len(),
            old(self).current_byte() < end,
            end < old(self).current_byte() + (old(into).len() - offset),
            end < body_bytes(old(self).body()).len(),
        ensures
            r == end - old(self).current_byte() + 1,
            final(into)@ == old(into)@.take(offset as int) + body_bytes(old(self).body()).subrange(
                old(self).current_byte(),
                end + 1,
            ) + old(into)@.skip(offset + r),
            final(self).current_byte() == end + 1,
            final(self).current_part() == old(self).current_part(),
            final(self).ranges() == old(self).ranges(),
            final(self).body() == old(self).body(),
            final(self).entity() == old(self).entity(),
    {
        let ghost d = body_bytes(self.data);
        let ghost b0 = self.byte as int;
        let ghost into0 = into@;
        match &self.data {
            ResponseBody::Static(bytes) => {
                let copied = end - self.byte + 1;
                let mut k: usize = 0;
                assert(into0.skip(offset as int) =~= into0.skip(offset + 0));
                assert(into@ =~= into0.take(offset as int) + d.subrange(b0, b0) + into0.skip(offset as int));
                while k < copied
                    invariant
                        bytes@ == d,
                        b0 == self.byte,
                        copied == end - b0 + 1,
                        offset + copied <= into.len(),
                        end < bytes.len(),
                        k <= copied,
                        into@.len() == into0.len(),
                        into@ == into0.take(offset as int) + d.subrange(b0, b0 + k) + into0.skip(offset + k),
                    decreases copied - k,
                {
                    into[offset + k] = bytes[self.byte + k];
                    proof {
                        assert(into@ =~= into0.take(offset as int) + d.subrange(b0, b0 + k + 1) + into0.skip(offset + k + 1));
                    }
                    k = k + 1;
                }
                self.byte = self.byte + copied;
                copied
            },
            _ => 0,
        }
    }

    /// Read the body from the current byte up to byte `end` into `into`,
    /// as far as it fits; a static body must then end within `into`.
    pub fn read(&mut self, into: &mut [u8], end: usize) -> (r: Result<usize, crate::error::IoError>)
        requires
            !(old(self).body() is Stream),
            old(self).body() is Static && old(into)@.len() > 0 && old(self).current_byte() < end
                ==> end < old(self).current_byte() + old(into).len() && end < body_bytes(
                old(self).body(),
            ).len(),
        ensures
            final(self).current_part() == old(self).current_part(),
            final(self).ranges() == old(self).ranges(),
            final(self).body() == old(self).body(),
            final(self).entity() == old(self).entity(),
            if old(self).body() is Static && old(into)@.len() > 0 && old(self).current_byte() < end {
                &&& r == Ok::<usize, crate::error::IoError>((end - old(self).current_byte() + 1) as usize)
                &&& final(into)@ == body_bytes(old(self).body()).subrange(old(self).current_byte(), end + 1)
                    + old(into)@.skip(end - old(self).current_byte() + 1)
                &&& final(self).current_byte() == end + 1
            } else {
                &&& r == Ok::<usize, crate::error::IoError>(0)
                &&& final(into)@ == old(into)@
                &&& final(self).current_byte() == old(self).current_byte()
            },
    {
        if into.len() == 0 || self.byte >= end {
            return Ok(0);
        }
        match &self.data {
            ResponseBody::Static(_) => {},
            _ => return Ok(0),
        }
        let n = self.read_at(into, 0, end);
        assert(old(into)@.take(0) + body_bytes(old(self).body()).subrange(old(self).current_byte(), end + 1) =~= body_bytes(old(self).body()).subrange(old(self).current_byte(), end + 1));
        Ok(n)
    }

    /// Read the next bytes of the ranges of a static body into `buf`, as the
    /// body of a streamed response does.
    pub fn read_parts(&mut self, buf: &mut [u8]) -> (r: Result<usize, crate::error::IoError>)
        requires
            old(self).body() is Static,
            parts_read(
                old(self).ranges(),
                body_bytes(old(self).body()),
                old(buf)@.len() as int,
                old(self).current_part(),
                old(self).current_byte(),
                0,
                old(buf)@,
            ) is Some,
        ensures
            final(self).ranges() == old(self).ranges(),
            final(self).body() == old(self).body(),
            final(self).entity() == old(self).entity(),
            old(self).current_part() >= old(self).ranges().len() ==> r == Ok::<usize, crate::error::IoError>(0)
                && final(buf)@ == old(buf)@ && final(self).current_part() == old(self).current_part()
                && final(self).current_byte() == old(self).current_byte(),
            old(self).current_part() < old(self).ranges().len() ==> parts_read(
                old(self).ranges(),
                body_bytes(old(self).body()),
                old(buf)@.len() as int,
                old(self).current_part(),
                old(self).current_byte(),
                0,
                old(buf)@,
            ) == Some((final(self).current_part(), final(self).current_byte(), r->Ok_0 as int, final(buf)@))
                && r is Ok,
    {
        if self.part >= self.parts.ranges.len() {
            return Ok(0);
        }
        let ghost rs = self.ranges();
        let ghost d = body_bytes(self.data);
        let ghost n = buf@.len() as int;
        let ghost target = parts_read(rs, d, n, self.part as int, self.byte as int, 0, buf@);
        let mut read: usize = 0;
        let mut s = range_start(&self.parts.ranges[self.part]);
        let mut e = range_end(&self.parts.ranges[self.part]);
        while read < buf.len()
            invariant
                rs == self.ranges(),
                d == body_bytes(self.data),
                self.data is Static,
                n == buf@.len(),
                n == old(buf)@.len(),
                self.ranges() == old(self).ranges(),
                self.body() == old(self).body(),
                self.entity() == old(self).entity(),
                self.part < rs.len(),
                self.part < self.parts.ranges.len(),
                s == rs[self.part as int].0,
                e == rs[self.part as int].1,
                read <= n,
                target == parts_read(rs, d, n, self.part as int, self.byte as int, read as int, buf@),
                target == parts_read(rs, d, n, old(self).current_part(), old(self).current_byte(), 0, old(buf)@),
                old(self).current_part() < rs.len(),
                target is Some,
            decreases rs.len() - self.part, n - read,
        {
            if self.byte < s {
                assert(parts_read(rs, d, n, self.part as int, self.byte as int, read as int, buf@) == Some((self.part as int, s as int, 0int, buf@)));
                self.seek(s);
                assert(target == Some((self.current_part(), self.current_byte(), 0int, buf@)));
                return Ok(0);
            }
            if self.byte >= e {
                self.part = self.part + 1;
                self.byte = 0;
                if self.part >= self.parts.ranges.len() {
                    assert(target == Some((self.current_part(), self.current_byte(), read as int, buf@)));
                    return Ok(read);
                }
                s = range_start(&self.parts.ranges[self.part]);
                e = range_end(&self.parts.ranges[self.part]);
                continue;
            }
            assert(e - self.byte < buf.len() - read);
            let end = e;
            let ghost b0 = self.byte as int;
            let ghost buf0 = buf@;
            let m = self.read_at(buf, read, end);
            proof {
                assert(buf@ == buf0.take(read as int) + d.subrange(b0, e + 1) + buf0.skip(read + m));
            }
            read = read + m;
            self.byte = self.byte + m;
        }
        Ok(read)
    }
}

/// `r` is the response that carries the first range of `rr`.
pub open spec fn is_singlepart_response(r: Response, rr: RangeResponse) -> bool {
    &&& r.status == Status::PartialContent
    &&& r.data is Stream
    &&& r.reason is None
    &&& r.headers@.len() == 2
    &&& r.headers@[0].name@ == "Content-Length"@
    &&& r.headers@[0].value@ == decimal((rr.ranges()[0].1 - rr.ranges()[0].0) as nat)
    &&& r.headers@[1].name@ == "Content-Range"@
    &&& r.headers@[1].value@ == "bytes "@ + decimal(rr.ranges()[0].0 as nat) + "-"@ + decimal(
        rr.ranges()[0].1 as nat,
    ) + "/"@ + decimal(rr.entity() as nat)
}

/// The length of the whole body of a response: that of a static body, the
/// `Content-Length` header of a streamed one (zero if it is missing or not a
/// number), and zero for none.
pub open spec fn entity_length_spec(res: Response) -> nat {
    match res.data {
        ResponseBody::Empty => 0,
        ResponseBody::Static(d) => d@.len(),
        ResponseBody::Stream => match header_index(res.headers@, "Content-Length"@) {
            Some(i) => match parse_unsigned_spec(res.headers@[i].value@, 10, usize::MAX as nat) {
                Some(n) => n,
                None => 0,
            },
            None => 0,
        },
    }
}

/// The response that carries one range of a body: status 206, a
/// `Content-Length` header of the range's end less its start, a
/// `Content-Range` header `bytes start-end/length`, and a streamed body.
pub fn singlepart_response(res: &RangeResponse) -> (r: Response)
    requires
        res.ranges().len() > 0,
        res.ranges()[0].0 <= res.ranges()[0].1,
    ensures
        is_singlepart_response(r, *res),
{
    let s = range_start(&res.parts.ranges[0]);
    let e = range_end(&res.parts.ranges[0]);
    let len = u64_to_string((e - s) as u64);
    let mut cr = String::from_str("bytes ");
    push_decimal(&mut cr, s as u64);
    cr.append("-");
    push_decimal(&mut cr, e as u64);
    cr.append("/");
    push_decimal(&mut cr, res.entity_length as u64);
    let r = Response::new()
        .status(Status::PartialContent)
        .header(Header::new("Content-Length", len.as_str()))
        .header(Header::new("Content-Range", cr.as_str()))
        .stream();
    r
}


impl Range {
    /// Answer a request for the ranges in the header `ranges`, on the
    /// response `res`: the response becomes the one carrying the range, and
    /// the reader of the range is returned. An invalid header leaves the
    /// response alone, or makes it a 416 response with the error's message if
    /// invalid headers are rejected. Only one range can be served.
    pub fn handle_range(&self, ranges: &str, res: &mut Response) -> (r: Option<RangeResponse>)
        requires
            ranges_spec(ranges@) matches Ok(rs) ==> rs.len() == 1,
        ensures
            match ranges_spec(ranges@) {
                Err(e) => {
                    &&& r is None
                    &&& !self.rejects_invalid() ==> *final(res) == *old(res)
                    &&& self.rejects_invalid() ==> {
                        &&& final(res).status == Status::RangeNotSatisfiable
                        &&& final(res).data matches ResponseBody::Static(d) && d@ == encode_utf8(range_error_message(e))
                        &&& final(res).headers@.len() == 0
                        &&& final(res).reason is None
                    }
                },
                Ok(rs) => r matches Some(rr) && rr.ranges() == rs && rr.body() == old(res).data
                    && rr.entity() == entity_length_spec(*old(res)) && rr.current_part() == 0
                    && rr.current_byte() == 0 && is_singlepart_response(*final(res), rr),
            },
    {
        let parsed = match Ranges::from_header(ranges) {
            Ok(p) => p,
            Err(e) => {
                if self.reject_invalid {
                    let msg = e.message();
                    *res = Response::new().status(Status::RangeNotSatisfiable).text(msg.as_str());
                }
                return None;
            },
        };
        proof {
            lemma_ranges_ordered(ranges@);
        }
        let entity_length: usize = match &res.data {
            ResponseBody::Empty => 0,
            ResponseBody::Static(d) => d.len(),
            ResponseBody::Stream => {
                proof {
                    crate::response::lemma_header_index(res.headers@, "Content-Length"@);
                }
                match get_header(res.headers.as_slice(), "Content-Length") {
                    Some(v) => {
                        let cv = chars_of(v.as_str());
                        assert(cv@.subrange(0, cv@.len() as int) == cv@);
                        match parse_unsigned(cv.as_slice(), 0, cv.len(), 10, usize::MAX as u64) {
                            Some(n) => n as usize,
                            None => 0,
                        }
                    },
                    None => 0,
                }
            },
        };
        let mut data = ResponseBody::Empty;
        std::mem::swap(&mut data, &mut res.data);
        let rr = RangeResponse::new(entity_length, parsed, data);
        *res = singlepart_response(&rr);
        Some(rr)
    }

    /// The work after the route for a GET request: serve the ranges of a
    /// Range header if there is one, or else announce that byte ranges are
    /// accepted (unless the response already says so).
    pub fn post(&self, req: &Request, res: &mut Response) -> (r: Option<RangeResponse>)
        requires
            req.method == Method::GET ==> (header_index(req.headers@, "Range"@) matches Some(i)
                ==> (ranges_spec(req.headers@[i].value@) matches Ok(rs) ==> rs.len() == 1)),
        ensures
            req.method != Method::GET ==> r is None && *final(res) == *old(res),
            req.method == Method::GET && header_index(req.headers@, "Range"@) is None ==> {
                &&& r is None
                &&& has_header_spec(old(res).headers@, "Accept-Ranges"@) ==> *final(res) == *old(res)
                &&& !has_header_spec(old(res).headers@, "Accept-Ranges"@) ==> {
                    &&& final(res).headers@.len() == old(res).headers@.len() + 1
                    &&& final(res).headers@.take(old(res).headers@.len() as int) == old(res).headers@
                    &&& final(res).headers@.last().name@ == "Accept-Ranges"@
                    &&& final(res).headers@.last().value@ == "bytes"@
                    &&& final(res).status == old(res).status
                    &&& final(res).data == old(res).data
                }
            },
            req.method == Method::GET ==> (header_index(req.headers@, "Range"@) matches Some(i) ==> (
            match ranges_spec(req.headers@[i].value@) {
                Err(e) => {
                    &&& r is None
                    &&& !self.rejects_invalid() ==> *final(res) == *old(res)
                    &&& self.rejects_invalid() ==> {
                        &&& final(res).status == Status::RangeNotSatisfiable
                        &&& final(res).data matches ResponseBody::Static(d) && d@ == encode_utf8(range_error_message(e))
                        &&& final(res).headers@.len() == 0
                        &&& final(res).reason is None
                    }
                },
                Ok(rs) => r matches Some(rr) && rr.ranges() == rs && rr.body() == old(res).data
                    && rr.entity() == entity_length_spec(*old(res)) && rr.current_part() == 0
                    && rr.current_byte() == 0 && is_singlepart_response(*final(res), rr),
            })),
    {
        if req.method != Method::GET {
            return None;
        }
        proof {
            crate::response::lemma_header_index(req.headers@, "Range"@);
        }
        match get_header(req.headers.as_slice(), "Range") {
            Some(v) => self.handle_range(v.as_str(), res),
            None => {
                if !has_header(res.headers.as_slice(), "Accept-Ranges") {
                    let ghost before = res.headers@;
                    res.headers.push(Header::new("Accept-Ranges", "bytes"));
                    assert(res.headers@.take(before.len() as int) =~= before);
                }
                None
            },
        }
    }
}

} // verus!
