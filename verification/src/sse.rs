//! Server-Sent Events: the line-level decoder of a `text/event-stream`
//! body and the checks made on the response that carries it.
use vstd::prelude::*;

use crate::text::{
    chars_of, copy_str, find_char, find_first, lemma_find_first_props, parse_u64,
    parse_u64_spec, push_char, str_equal, string_from_range,
};

verus! {

broadcast use vstd::string::group_string_axioms;

/// The view of an optional string.
pub open spec fn opt_str_view(o: Option<String>) -> Option<Seq<char>> {
    match o {
        Some(s) => Some(s@),
        None => None,
    }
}

// ---------------------------------------------------------------------------
// Events
// ---------------------------------------------------------------------------

/// A Server-Sent Event.
#[derive(Debug, Clone, PartialEq, Eq)]
pub struct Event {
    /// A string identifying the type of event described.
    pub event_type: String,
    /// The data field for the message.
    pub data: String,
    /// Last event ID value.
    pub last_event_id: Option<String>,
    /// Reconnection time, in milliseconds.
    pub retry: Option<u64>,
}

/// The mathematical content of an [`Event`].
pub struct EventModel {
    pub event_type: Seq<char>,
    pub data: Seq<char>,
    pub last_event_id: Option<Seq<char>>,
    pub retry: Option<u64>,
}

impl View for Event {
    type V = EventModel;

    open spec fn view(&self) -> EventModel {
        EventModel {
            event_type: self.event_type@,
            data: self.data@,
            last_event_id: opt_str_view(self.last_event_id),
            retry: self.retry,
        }
    }
}

/// The view of an optional event.
pub open spec fn opt_event_view(o: Option<Event>) -> Option<EventModel> {
    match o {
        Some(e) => Some(e@),
        None => None,
    }
}

// ---------------------------------------------------------------------------
// The event buffer
// ---------------------------------------------------------------------------

/// Accumulates the fields of the event being read. A single buffer serves a
/// whole stream: the `set_*` and `push_data` methods update it, and
/// [`EventBuffer::produce_event`] turns it into an [`Event`] and prepares it
/// for the next one.
#[derive(Debug, Default)]
pub struct EventBuffer {
    pub event_type: String,
    pub data: String,
    pub last_event_id: Option<String>,
    pub retry: Option<u64>,
}

/// The mathematical content of an [`EventBuffer`].
pub struct BufferModel {
    pub event_type: Seq<char>,
    pub data: Seq<char>,
    pub last_event_id: Option<Seq<char>>,
    pub retry: Option<u64>,
}

impl View for EventBuffer {
    type V = BufferModel;

    open spec fn view(&self) -> BufferModel {
        BufferModel {
            event_type: self.event_type@,
            data: self.data@,
            last_event_id: opt_str_view(self.last_event_id),
            retry: self.retry,
        }
    }
}

/// The state of a buffer that has read nothing yet.
pub open spec fn empty_buffer() -> BufferModel {
    BufferModel { event_type: Seq::empty(), data: Seq::empty(), last_event_id: None, retry: None }
}

/// The type that an event without an `event:` field gets.
pub open spec fn default_event_type() -> Seq<char> {
    "message"@
}

/// What producing an event does: with no data, the type is cleared and no
/// event comes out; otherwise the event carries the type (or `message`), the
/// data, and the id and retry seen so far, and type and data are cleared.
pub open spec fn produce_spec(b: BufferModel) -> (BufferModel, Option<EventModel>) {
    if b.data.len() == 0 {
        (BufferModel { event_type: Seq::empty(), ..b }, None)
    } else {
        (
            BufferModel { event_type: Seq::empty(), data: Seq::empty(), ..b },
            Some(
                EventModel {
                    event_type: if b.event_type.len() == 0 {
                        default_event_type()
                    } else {
                        b.event_type
                    },
                    data: b.data,
                    last_event_id: b.last_event_id,
                    retry: b.retry,
                },
            ),
        )
    }
}

/// Data lines are joined with a line feed.
pub open spec fn append_data(data: Seq<char>, more: Seq<char>) -> Seq<char> {
    if data.len() == 0 {
        more
    } else {
        data.push('\n') + more
    }
}

impl EventBuffer {
    /// A buffer that has read nothing.
    pub fn new() -> (r: Self)
        ensures
            r@ == empty_buffer(),
    {
        EventBuffer { event_type: String::new(), data: String::new(), last_event_id: None, retry: None }
    }

    /// Produces an [`Event`] if the buffer holds data, and resets the type and
    /// data for the next event.
    pub fn produce_event(&mut self) -> (r: Option<Event>)
        ensures
            (final(self)@, opt_event_view(r)) == produce_spec(old(self)@),
    {
        if self.data.as_str().is_empty() {
            // With no data the event type must be cleared as well.
            self.event_type = String::new();
            return None;
        }
        let mut event_type = String::new();
        std::mem::swap(&mut event_type, &mut self.event_type);
        let event_type = if event_type.as_str().is_empty() {
            "message".to_owned()
        } else {
            event_type
        };
        let mut data = String::new();
        std::mem::swap(&mut data, &mut self.data);
        Some(
            Event {
                event_type,
                data,
                last_event_id: self.last_event_id.clone(),
                retry: self.retry,
            },
        )
    }

    /// Sets the event's type, replacing the previous one.
    pub fn set_event_type(&mut self, event_type: &str)
        ensures
            final(self)@ == (BufferModel { event_type: event_type@, ..old(self)@ }),
    {
        self.event_type = copy_str(event_type);
    }

    /// Appends a data line; lines are separated by a line feed.
    pub fn push_data(&mut self, data: &str)
        ensures
            final(self)@ == (BufferModel { data: append_data(old(self)@.data, data@), ..old(self)@ }),
    {
        let mut d = String::new();
        std::mem::swap(&mut d, &mut self.data);
        let ghost start0 = d@;
        if !d.as_str().is_empty() {
            push_char(&mut d, '\n');
        }
        let v = chars_of(data);
        let mut i: usize = 0;
        let ghost start = d@;
        while i < v.len()
            invariant
                i <= v@.len(),
                v@ == data@,
                d@ == start + v@.take(i as int),
            decreases v.len() - i,
        {
            push_char(&mut d, v[i]);
            i += 1;
            assert(d@ =~= start + v@.take(i as int));
        }
        assert(v@.take(v@.len() as int) =~= v@);
        assert(append_data(start0, data@) =~= d@);
        self.data = d;
    }

    /// Records the id of the last event.
    pub fn set_id(&mut self, id: &str)
        ensures
            final(self)@ == (BufferModel { last_event_id: Some(id@), ..old(self)@ }),
    {
        self.last_event_id = Some(copy_str(id));
    }

    /// Records the reconnection time, in milliseconds.
    pub fn set_retry(&mut self, retry: u64)
        ensures
            final(self)@ == (BufferModel { retry: Some(retry), ..old(self)@ }),
    {
        self.retry = Some(retry);
    }

    /// Processes one line read from the stream, its terminator included, and
    /// returns the event that a blank line dispatches.
    pub fn feed_line(&mut self, raw_line: &str) -> (r: Option<Event>)
        ensures
            (final(self)@, opt_event_view(r)) == feed_spec(old(self)@, raw_line@),
    {
        let line = strip_line_terminator(raw_line);
        if line.as_str().is_empty() {
            return self.produce_event();
        }
        let (field, value) = parse_line(&line);
        if str_equal(&field, "event") {
            self.set_event_type(&value);
        } else if str_equal(&field, "data") {
            self.push_data(&value);
        } else if str_equal(&field, "id") {
            self.set_id(&value);
        } else if str_equal(&field, "retry") {
            if let Some(millis) = parse_u64(&value) {
                self.set_retry(millis);
            }
        }
        None
    }

    /// Processes the lines in order and returns the events they dispatch.
    pub fn feed_lines(&mut self, lines: &Vec<String>) -> (r: Vec<Event>)
        ensures
            (final(self)@, r@.map_values(|e: Event| e@)) == feed_all_spec(
                old(self)@,
                lines@.map_values(|l: String| l@),
            ),
    {
        let mut out: Vec<Event> = Vec::new();
        let mut i: usize = 0;
        let ghost ls = lines@.map_values(|l: String| l@);
        assert(ls.skip(0) =~= ls);
        assert(out@.map_values(|e: Event| e@) =~= Seq::<EventModel>::empty());
        while i < lines.len()
            invariant
                i <= lines@.len(),
                ls == lines@.map_values(|l: String| l@),
                feed_all_spec(old(self)@, ls) == feed_all_spec_from(
                    self@,
                    out@.map_values(|e: Event| e@),
                    ls.skip(i as int),
                ),
            decreases lines.len() - i,
        {
            let ghost before = self@;
            let ghost out_before = out@.map_values(|e: Event| e@);
            let produced = self.feed_line(&lines[i]);
            assert(ls.skip(i as int).drop_first() =~= ls.skip(i + 1));
            assert(ls.skip(i as int)[0] == lines@[i as int]@);
            match produced {
                Some(e) => {
                    out.push(e);
                    assert(out@.map_values(|e: Event| e@) =~= out_before.push(e@));
                },
                None => {
                    assert(out@.map_values(|e: Event| e@) =~= out_before);
                },
            }
            i += 1;
        }
        assert(ls.skip(i as int) =~= Seq::<Seq<char>>::empty());
        out
    }
}

/// The line without its `\r\n` or `\n` terminator.
pub open spec fn strip_terminator(s: Seq<char>) -> Seq<char> {
    if s.len() >= 2 && s[s.len() - 2] == '\r' && s[s.len() - 1] == '\n' {
        s.take(s.len() - 2)
    } else if s.len() >= 1 && s[s.len() - 1] == '\n' {
        s.take(s.len() - 1)
    } else {
        s
    }
}

/// A value without the one space that may follow the colon.
pub open spec fn strip_one_space(s: Seq<char>) -> Seq<char> {
    if s.len() > 0 && s[0] == ' ' {
        s.drop_first()
    } else {
        s
    }
}

/// The field name (before the first colon) and the value (after it, less one
/// leading space); a line without a colon is all field name.
pub open spec fn parse_line_spec(line: Seq<char>) -> (Seq<char>, Seq<char>) {
    let i = find_first(line, ':');
    if i < line.len() {
        (line.take(i), strip_one_space(line.skip(i + 1)))
    } else {
        (line, Seq::empty())
    }
}

/// What one line of the stream does to the buffer, and the event it
/// dispatches: a blank line produces the event; `event`, `data`, `id` and
/// `retry` (when its value is a decimal number) update the buffer; any other
/// field is ignored.
pub open spec fn feed_spec(b: BufferModel, raw_line: Seq<char>) -> (BufferModel, Option<EventModel>) {
    let line = strip_terminator(raw_line);
    if line.len() == 0 {
        produce_spec(b)
    } else {
        let (field, value) = parse_line_spec(line);
        if field == "event"@ {
            (BufferModel { event_type: value, ..b }, None)
        } else if field == "data"@ {
            (BufferModel { data: append_data(b.data, value), ..b }, None)
        } else if field == "id"@ {
            (BufferModel { last_event_id: Some(value), ..b }, None)
        } else if field == "retry"@ {
            match parse_u64_spec(value) {
                Some(ms) => (BufferModel { retry: Some(ms), ..b }, None),
                None => (b, None),
            }
        } else {
            (b, None)
        }
    }
}

/// Feeding `lines` after having produced `out`.
pub open spec fn feed_all_spec_from(b: BufferModel, out: Seq<EventModel>, lines: Seq<Seq<char>>) -> (
    BufferModel,
    Seq<EventModel>,
)
    decreases lines.len(),
{
    if lines.len() == 0 {
        (b, out)
    } else {
        let (b2, e) = feed_spec(b, lines[0]);
        let out2 = match e {
            Some(ev) => out.push(ev),
            None => out,
        };
        feed_all_spec_from(b2, out2, lines.drop_first())
    }
}

/// The buffer after the lines, and the events they dispatch, in order.
pub open spec fn feed_all_spec(b: BufferModel, lines: Seq<Seq<char>>) -> (BufferModel, Seq<EventModel>) {
    feed_all_spec_from(b, Seq::empty(), lines)
}

/// Once a blank line has dispatched the buffered event, another blank line
/// dispatches nothing: each event is delivered once, and the last event id
/// and retry survive the dispatch.
pub proof fn law_event_dispatched_once(b: BufferModel, blank: Seq<char>)
    requires
        strip_terminator(blank).len() == 0,
    ensures
        feed_spec(feed_spec(b, blank).0, blank).1 is None,
        feed_spec(b, blank).0.last_event_id == b.last_event_id,
        feed_spec(b, blank).0.retry == b.retry,
{
}

/// Strips the line terminator (`\r\n` or `\n`) that the line reader keeps.
pub fn strip_line_terminator(line: &str) -> (r: String)
    ensures
        r@ == strip_terminator(line@),
{
    let v = chars_of(line);
    let n = v.len();
    if n >= 2 && v[n - 2] == '\r' && v[n - 1] == '\n' {
        string_from_range(&v, 0, n - 2)
    } else if n >= 1 && v[n - 1] == '\n' {
        string_from_range(&v, 0, n - 1)
    } else {
        let r = string_from_range(&v, 0, n);
        assert(v@.subrange(0, n as int) =~= v@);
        r
    }
}

/// Splits a line into its field name and value, applying the trimming that
/// the event-stream format prescribes.
pub fn parse_line(line: &str) -> (r: (String, String))
    ensures
        (r.0@, r.1@) == parse_line_spec(line@),
{
    let v = chars_of(line);
    let i = find_char(&v, ':');
    proof {
        lemma_find_first_props(v@, ':');
    }
    if i < v.len() {
        let field = string_from_range(&v, 0, i);
        let start = if i + 1 < v.len() && v[i + 1] == ' ' {
            i + 2
        } else {
            i + 1
        };
        let value = string_from_range(&v, start, v.len());
        assert(strip_one_space(v@.skip(i + 1)) =~= v@.subrange(start as int, v@.len() as int));
        (field, value)
    } else {
        (copy_str(line), String::new())
    }
}

// ---------------------------------------------------------------------------
// The response that carries the stream
// ---------------------------------------------------------------------------

/// Whether `b` is ASCII whitespace (space, tab, line feed, form feed,
/// carriage return).
pub open spec fn is_ascii_ws(b: u8) -> bool {
    b == 32 || b == 9 || b == 10 || b == 12 || b == 13
}

/// `s` without leading ASCII whitespace.
pub open spec fn trim_start_ws(s: Seq<u8>) -> Seq<u8>
    decreases s.len(),
{
    if s.len() > 0 && is_ascii_ws(s[0]) {
        trim_start_ws(s.drop_first())
    } else {
        s
    }
}

/// `s` without trailing ASCII whitespace.
pub open spec fn trim_end_ws(s: Seq<u8>) -> Seq<u8>
    decreases s.len(),
{
    if s.len() > 0 && is_ascii_ws(s.last()) {
        trim_end_ws(s.drop_last())
    } else {
        s
    }
}

/// The ASCII lower case of `b`.
pub open spec fn ascii_lower(b: u8) -> u8 {
    if 65 <= b <= 90 {
        (b + 32) as u8
    } else {
        b
    }
}

/// Equality of byte strings up to ASCII case.
pub open spec fn eq_ignore_ascii_case(a: Seq<u8>, b: Seq<u8>) -> bool {
    a.len() == b.len() && forall|i: int| 0 <= i < a.len() ==> ascii_lower(a[i]) == ascii_lower(b[i])
}

/// The bytes of `text/event-stream`.
pub open spec fn mime_event_stream() -> Seq<u8> {
    seq![116u8, 101, 120, 116, 47, 101, 118, 101, 110, 116, 45, 115, 116, 114, 101, 97, 109]
}

/// A `Content-Type` names an event stream when its media type (before any
/// `;`), trimmed of whitespace, is `text/event-stream` in any case.
pub open spec fn is_event_stream_spec(value: Seq<u8>) -> bool {
    eq_ignore_ascii_case(
        trim_end_ws(trim_start_ws(value.take(find_first(value, 59u8)))),
        mime_event_stream(),
    )
}

fn mime_bytes() -> (r: Vec<u8>)
    ensures
        r@ == mime_event_stream(),
{
    let mut r: Vec<u8> = Vec::new();
    r.push(116);
    r.push(101);
    r.push(120);
    r.push(116);
    r.push(47);
    r.push(101);
    r.push(118);
    r.push(101);
    r.push(110);
    r.push(116);
    r.push(45);
    r.push(115);
    r.push(116);
    r.push(114);
    r.push(101);
    r.push(97);
    r.push(109);
    assert(r@ =~= mime_event_stream());
    r
}

fn lower_byte(b: u8) -> (r: u8)
    ensures
        r == ascii_lower(b),
{
    if 65 <= b && b <= 90 {
        b + 32
    } else {
        b
    }
}

/// Returns `true` if a `Content-Type` value names an event stream.
pub fn is_event_stream(value: &[u8]) -> (r: bool)
    ensures
        r == is_event_stream_spec(value@),
{
    let n = value.len();
    // The media type ends at the first `;`.
    let mut end: usize = 0;
    while end < n && value[end] != 59
        invariant
            end <= n == value@.len(),
            forall|j: int| 0 <= j < end ==> value@[j] != 59u8,
        decreases n - end,
    {
        end += 1;
    }
    proof {
        crate::text::lemma_find_first(value@, 59u8, end as int);
    }
    let ghost media = value@.take(end as int);
    let mut lo: usize = 0;
    while lo < end && (value[lo] == 32 || value[lo] == 9 || value[lo] == 10 || value[lo] == 12
        || value[lo] == 13)
        invariant
            lo <= end <= n == value@.len(),
            media == value@.take(end as int),
            trim_start_ws(media) == trim_start_ws(value@.subrange(lo as int, end as int)),
        decreases end - lo,
    {
        assert(value@.subrange(lo as int, end as int).drop_first() =~= value@.subrange(
            lo + 1,
            end as int,
        ));
        lo += 1;
    }
    if lo == 0 {
        assert(value@.subrange(0, end as int) =~= media);
    }
    let ghost started = value@.subrange(lo as int, end as int);
    assert(trim_start_ws(media) == started);
    let mut hi: usize = end;
    while hi > lo && (value[hi - 1] == 32 || value[hi - 1] == 9 || value[hi - 1] == 10 || value[hi
        - 1] == 12 || value[hi - 1] == 13)
        invariant
            lo <= hi <= end <= n == value@.len(),
            started == value@.subrange(lo as int, end as int),
            trim_end_ws(started) == trim_end_ws(value@.subrange(lo as int, hi as int)),
        decreases hi - lo,
    {
        assert(value@.subrange(lo as int, hi as int).drop_last() =~= value@.subrange(
            lo as int,
            hi - 1,
        ));
        hi -= 1;
    }
    let ghost trimmed = value@.subrange(lo as int, hi as int);
    assert(trim_end_ws(started) == trimmed);
    let mime = mime_bytes();
    if hi - lo != mime.len() {
        return false;
    }
    let mut k: usize = 0;
    while k < mime.len()
        invariant
            hi - lo == mime@.len(),
            lo <= hi <= value@.len(),
            trimmed == value@.subrange(lo as int, hi as int),
            trimmed == trim_end_ws(trim_start_ws(value@.take(find_first(value@, 59u8)))),
            mime@ == mime_event_stream(),
            k <= mime@.len(),
            forall|j: int| 0 <= j < k ==> ascii_lower(trimmed[j]) == ascii_lower(mime@[j]),
        decreases mime.len() - k,
    {
        if lower_byte(value[lo + k]) != lower_byte(mime[k]) {
            assert(trimmed[k as int] == value@[lo + k]);
            return false;
        }
        assert(trimmed[k as int] == value@[lo + k]);
        k += 1;
    }
    true
}

/// The error a stream read can fail with.
#[derive(Debug)]
pub enum EventError {
    /// I/O error while reading the event stream.
    IoError(std::io::Error),
}

/// Why a response cannot be read as an event stream.
#[derive(Debug)]
pub enum EventSourceError {
    /// The response status is not `200 OK`.
    BadStatus(u16),
    /// The `Content-Type` header is missing or not `text/event-stream`.
    BadContentType(Option<Vec<u8>>),
    /// Reading the stream failed.
    EventError(EventError),
}

/// The checks made on a response before its body is read as an event stream:
/// the status must be 200 and the `Content-Type` an event stream.
pub fn check_event_stream_response(status: u16, content_type: Option<&[u8]>) -> (r: Result<
    (),
    EventSourceError,
>)
    ensures
        match r {
            Err(EventSourceError::BadStatus(s)) => status != 200 && s == status,
            Err(EventSourceError::BadContentType(None)) => status == 200 && content_type is None,
            Err(EventSourceError::BadContentType(Some(v))) => {
                &&& status == 200
                &&& content_type is Some
                &&& !is_event_stream_spec(content_type.unwrap()@)
                &&& v@ == content_type.unwrap()@
            },
            Err(EventSourceError::EventError(_)) => false,
            Ok(()) => status == 200 && content_type is Some && is_event_stream_spec(
                content_type.unwrap()@,
            ),
        },
{
    if status != 200 {
        return Err(EventSourceError::BadStatus(status));
    }
    match content_type {
        Some(c) => {
            if !is_event_stream(c) {
                return Err(EventSourceError::BadContentType(Some(vstd::slice::slice_to_vec(c))));
            }
            Ok(())
        },
        None => Err(EventSourceError::BadContentType(None)),
    }
}

#[verifier::external_type_specification]
#[verifier::external_body]
pub struct ExIoError(std::io::Error);

} // verus!
