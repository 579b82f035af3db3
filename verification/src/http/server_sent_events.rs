//! Server-sent events: the formatting of the events a stream sends.
use vstd::prelude::*;
use vstd::string::StringExecFns;

use crate::request::Request;
use crate::response::{get_header, header_index};
use crate::text::{
    chars_of, decimal, lemma_split_char_nonempty, parse_unsigned, parse_unsigned_spec, push_decimal,
    push_str, split_char, split_chars,
};

verus! {

/// A server-sent event: an optional id, an event type, and data.
#[derive(Debug, Clone)]
pub struct Event {
    id: Option<u32>,
    event: String,
    data: String,
}

/// What a stream is asked to send.
#[derive(Debug)]
pub enum EventType {
    /// An event.
    Event(Event),
    /// A new reconnection delay, in milliseconds.
    SetRetry(u32),
    /// Close the stream.
    Close,
}

/// The `data:` lines of the event data, one per line of it.
pub open spec fn data_lines(lines: Seq<Seq<char>>) -> Seq<char>
    decreases lines.len(),
{
    if lines.len() == 0 {
        Seq::empty()
    } else {
        data_lines(lines.drop_last()) + "data: "@ + lines.last() + "\n"@
    }
}

/// The text of an event: `id: <id>` if it has one, `event: <type>`, a
/// `data:` line for each line of the data, and a blank line.
pub open spec fn event_text(id: Option<u32>, event: Seq<char>, data: Seq<char>) -> Seq<char> {
    (match id {
        Some(i) => "id: "@ + decimal(i as nat) + "\n"@,
        None => Seq::empty(),
    }) + "event: "@ + event + "\n"@ + data_lines(split_char(data, '\n')) + "\n"@
}

impl Event {
    /// The id of the event.
    pub closed spec fn id_of(&self) -> Option<u32> {
        self.id
    }

    /// The type of the event.
    pub closed spec fn event_of(&self) -> Seq<char> {
        self.event@
    }

    /// The data of the event.
    pub closed spec fn data_of(&self) -> Seq<char> {
        self.data@
    }

    /// A new event of the given type, with no id and no data.
    pub fn new(event_type: &str) -> (r: Event)
        ensures
            r.id_of() is None,
            r.event_of() == event_type@,
            r.data_of() == Seq::<char>::empty(),
    {
        Event { id: None, event: String::from_str(event_type), data: String::new() }
    }

    /// Set the id of the event.
    pub fn id(self, id: u32) -> (r: Event)
        ensures
            r.id_of() == Some(id),
            r.event_of() == self.event_of(),
            r.data_of() == self.data_of(),
    {
        Event { id: Some(id), ..self }
    }

    /// Add data to the event.
    pub fn data(self, data: &str) -> (r: Event)
        ensures
            r.id_of() == self.id_of(),
            r.event_of() == self.event_of(),
            r.data_of() == self.data_of() + data@,
    {
        let mut d = self.data;
        push_str(&mut d, data);
        Event { data: d, ..self }
    }

    /// The event as the stream sends it.
    pub fn to_string(&self) -> (r: String)
        ensures
            r@ == event_text(self.id_of(), self.event_of(), self.data_of()),
    {
        let mut out = String::new();
        match self.id {
            Some(id) => {
                push_str(&mut out, "id: ");
                push_decimal(&mut out, id as u64);
                push_str(&mut out, "\n");
            },
            None => {},
        }
        let ghost head = out@;
        push_str(&mut out, "event: ");
        push_str(&mut out, self.event.as_str());
        push_str(&mut out, "\n");
        let ghost head2 = out@;
        let dv = chars_of(self.data.as_str());
        let lines = split_chars(dv.as_slice(), '\n');
        let ghost ls = lines.deep_view();
        let mut i: usize = 0;
        assert(ls.take(0) =~= Seq::<Seq<char>>::empty());
        assert(head2 + Seq::<char>::empty() =~= head2);
        while i < lines.len()
            invariant
                i <= ls.len(),
                ls == lines.deep_view(),
                out@ == head2 + data_lines(ls.take(i as int)),
            decreases lines.len() - i,
        {
            assert(ls.take(i + 1).drop_last() == ls.take(i as int));
            assert(ls.take(i + 1).last() == lines@[i as int]@);
            push_str(&mut out, "data: ");
            push_str(&mut out, lines[i].as_str());
            push_str(&mut out, "\n");
            assert(out@ =~= head2 + data_lines(ls.take(i + 1)));
            i = i + 1;
        }
        assert(ls.take(ls.len() as int) == ls);
        push_str(&mut out, "\n");
        proof {
            assert(out@ =~= event_text(self.id_of(), self.event_of(), self.data_of()));
        }
        out
    }
}

impl From<Event> for EventType {
    fn from(event: Event) -> (r: EventType) {
        EventType::Event(event)
    }
}

impl vstd::std_specs::convert::FromSpecImpl<Event> for EventType {
    open spec fn obeys_from_spec() -> bool {
        true
    }

    open spec fn from_spec(v: Event) -> EventType {
        EventType::Event(v)
    }
}

/// The head of an event stream response.
pub fn stream_head() -> (r: &'static str)
    ensures
        r@ == "HTTP/1.1 200 OK\r\nContent-Type: text/event-stream\r\nCache-Control: no-cache\r\n\r\n"@,
{
    "HTTP/1.1 200 OK\r\nContent-Type: text/event-stream\r\nCache-Control: no-cache\r\n\r\n"
}

/// The message that sets a new reconnection delay: `retry: <ms>` and a blank line.
pub fn retry_message(retry: u32) -> (r: String)
    ensures
        r@ == "retry: "@ + decimal(retry as nat) + "\n\n"@,
{
    let mut out = String::from_str("retry: ");
    push_decimal(&mut out, retry as u64);
    push_str(&mut out, "\n\n");
    out
}

/// What the stream's writer does with a message: the text to write, or
/// `None` to stop.
pub fn message_text(message: &EventType) -> (r: Option<String>)
    ensures
        match message {
            EventType::Event(e) => r matches Some(t) && t@ == event_text(e.id_of(), e.event_of(), e.data_of()),
            EventType::SetRetry(n) => r matches Some(t) && t@ == "retry: "@ + decimal(*n as nat) + "\n\n"@,
            EventType::Close => r is None,
        },
{
    match message {
        EventType::Event(e) => Some(e.to_string()),
        EventType::SetRetry(n) => Some(retry_message(*n)),
        EventType::Close => None,
    }
}

/// The id of the last event a reconnecting client saw: its `Last-Event-ID`
/// header as a `u32`, if it has one that is a number.
pub fn last_event_id(req: &Request) -> (r: Option<u32>)
    ensures
        match header_index(req.headers@, "Last-Event-ID"@) {
            Some(i) => match parse_unsigned_spec(req.headers@[i].value@, 10, u32::MAX as nat) {
                Some(n) => r == Some(n as u32),
                None => r is None,
            },
            None => r is None,
        },
{
    match get_header(req.headers.as_slice(), "Last-Event-ID") {
        Some(v) => {
            let cv = chars_of(v.as_str());
            assert(cv@.subrange(0, cv@.len() as int) == cv@);
            match parse_unsigned(cv.as_slice(), 0, cv.len(), 10, u32::MAX as u64) {
                Some(n) => Some(n as u32),
                None => None,
            }
        },
        None => None,
    }
}

} // verus!
