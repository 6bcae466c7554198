//! Decoding of an OpenAI-style chat completion stream: content and reasoning
//! deltas pass through, tool-call fragments are gathered by index and
//! released in index order, and exactly one end of message is produced.
use vstd::prelude::*;

use crate::message::{
    json_or_null, opt_event, parse_json_or_null, ProviderEvent, ProviderEventView, StopReason,
    StopReasonView, ToolCall, ToolCallView, Usage,
};
use crate::text::{push_str, trim, trim_string};

verus! {

broadcast use vstd::string::group_string_axioms;

/// Token counts reported on the last chunk of a stream.
#[derive(Debug, Clone, Copy)]
pub struct StreamUsage {
    pub prompt_tokens: usize,
    pub completion_tokens: usize,
}

/// Why a choice finished.
#[derive(Debug, Clone, Copy, PartialEq, Eq, Structural)]
pub enum FinishReason {
    Stop,
    Length,
    ToolCalls,
    ContentFilter,
    FunctionCall,
}

/// A fragment of a function call.
#[derive(Debug, Clone)]
pub struct StreamFunction {
    pub name: Option<String>,
    pub arguments: Option<String>,
}

/// A fragment of the tool call at position `index`.
#[derive(Debug, Clone)]
pub struct StreamDeltaToolCall {
    pub index: usize,
    pub id: Option<String>,
    pub function: Option<StreamFunction>,
}

/// What one chunk adds to a choice.
#[derive(Debug, Clone)]
pub struct StreamDelta {
    pub content: Option<String>,
    pub reasoning_content: Option<String>,
    pub tool_calls: Option<Vec<StreamDeltaToolCall>>,
}

/// One choice of a chunk.
#[derive(Debug, Clone)]
pub struct StreamChoice {
    pub delta: StreamDelta,
    pub finish_reason: Option<FinishReason>,
}

/// One parsed `data:` payload of the stream.
#[derive(Debug, Clone)]
pub struct StreamChunk {
    pub choices: Vec<StreamChoice>,
    pub usage: Option<StreamUsage>,
}

/// A tool call whose fragments are still arriving.
#[derive(Debug)]
pub struct PendingToolCall {
    pub id: Option<String>,
    pub name: Option<String>,
    pub arguments: String,
}

/// The mathematical content of a [`PendingToolCall`].
pub struct PendingView {
    pub id: Option<Seq<char>>,
    pub name: Option<Seq<char>>,
    pub arguments: Seq<char>,
}

impl View for PendingToolCall {
    type V = PendingView;

    open spec fn view(&self) -> PendingView {
        PendingView {
            id: match self.id {
                Some(x) => Some(x@),
                None => None,
            },
            name: match self.name {
                Some(x) => Some(x@),
                None => None,
            },
            arguments: self.arguments@,
        }
    }
}

/// A tool call of which nothing has arrived yet.
pub open spec fn empty_pending() -> PendingView {
    PendingView { id: None, name: None, arguments: Seq::empty() }
}

/// A pending call after one more fragment: a given id or name replaces the
/// one held, and argument text is appended.
pub open spec fn merge_delta(p: PendingView, tc: StreamDeltaToolCall) -> PendingView {
    PendingView {
        id: match tc.id {
            Some(x) => Some(x@),
            None => p.id,
        },
        name: match tc.function {
            Some(f) => match f.name {
                Some(n) => Some(n@),
                None => p.name,
            },
            None => p.name,
        },
        arguments: match tc.function {
            Some(f) => match f.arguments {
                Some(a) => p.arguments + a@,
                None => p.arguments,
            },
            None => p.arguments,
        },
    }
}

/// The first position in `s` whose index is at least `idx`.
pub open spec fn lower_bound(s: Seq<(usize, PendingView)>, idx: usize) -> int
    decreases s.len(),
{
    if s.len() == 0 {
        0
    } else if s[0].0 >= idx {
        0
    } else {
        1 + lower_bound(s.drop_first(), idx)
    }
}

/// The pending calls, ordered by index, after one fragment: merged into the
/// call with the fragment's index, or starting a new call in its place.
pub open spec fn apply_delta_spec(s: Seq<(usize, PendingView)>, tc: StreamDeltaToolCall) -> Seq<
    (usize, PendingView),
> {
    let p = lower_bound(s, tc.index);
    if p < s.len() && s[p].0 == tc.index {
        s.update(p, (tc.index, merge_delta(s[p].1, tc)))
    } else {
        s.insert(p, (tc.index, merge_delta(empty_pending(), tc)))
    }
}

/// The pending calls after a list of fragments, in order.
pub open spec fn apply_deltas_spec(s: Seq<(usize, PendingView)>, tcs: Seq<StreamDeltaToolCall>) -> Seq<
    (usize, PendingView),
>
    decreases tcs.len(),
{
    if tcs.len() == 0 {
        s
    } else {
        apply_delta_spec(apply_deltas_spec(s, tcs.drop_last()), tcs.last())
    }
}

/// The event that releases a pending call: a missing id or name is empty,
/// and the arguments are their JSON value, or `null` where they are not JSON.
pub open spec fn pending_event(p: PendingView) -> ProviderEventView {
    ProviderEventView::ToolCall(
        ToolCallView {
            id: match p.id {
                Some(x) => x,
                None => Seq::empty(),
            },
            name: match p.name {
                Some(x) => x,
                None => Seq::empty(),
            },
            args: json_or_null(p.arguments),
        },
    )
}

/// The events that releasing all of `s` stacks up: highest index first, so
/// that taking them off the stack gives them in increasing index order.
pub open spec fn flushed_events(s: Seq<(usize, PendingView)>) -> Seq<ProviderEventView> {
    Seq::new(s.len(), |i: int| pending_event(s[s.len() - 1 - i].1))
}

/// The state of a decoder.
pub struct DecoderView {
    /// Calls still gathering fragments, in increasing index order.
    pub pending: Seq<(usize, PendingView)>,
    pub usage: Option<StreamUsage>,
    /// Whether the end of the message was produced.
    pub terminated: bool,
    /// Released events not handed out yet; the last is handed out first.
    pub events: Seq<ProviderEventView>,
}

/// Releasing every pending call onto the stack of events.
pub open spec fn flush_spec(d: DecoderView) -> DecoderView {
    DecoderView { pending: Seq::empty(), events: d.events + flushed_events(d.pending), ..d }
}

/// Producing the end of the message, once only.
pub open spec fn emit_spec(d: DecoderView, reason: StopReasonView) -> (DecoderView, Option<
    ProviderEventView,
>) {
    if d.terminated {
        (d, None)
    } else {
        (DecoderView { terminated: true, ..d }, Some(ProviderEventView::MessageEnd(reason)))
    }
}

/// Handing out the most recently released event.
pub open spec fn pop_spec(d: DecoderView) -> (DecoderView, Option<ProviderEventView>) {
    if d.events.len() == 0 {
        (d, None)
    } else {
        (DecoderView { events: d.events.drop_last(), ..d }, Some(d.events.last()))
    }
}

/// One step at the end of the stream (its `[DONE]` marker or its close):
/// every pending call is released; a released call is handed out while any
/// is left, and only then is the end of the message produced, if it was not.
pub open spec fn done_spec(d: DecoderView) -> (DecoderView, Option<ProviderEventView>) {
    let f = flush_spec(d);
    if f.events.len() > 0 {
        pop_spec(f)
    } else {
        emit_spec(f, StopReasonView::Stop)
    }
}

/// The choices of a chunk from position `i` on. Non-empty content ends the
/// step with that content, then non-empty reasoning; otherwise the tool-call
/// fragments are gathered and the finish reason decides: a tool-call finish
/// releases every pending call and hands out the first, a length, stop or
/// content-filter finish ends the message.
pub open spec fn choices_step(d: DecoderView, cs: Seq<StreamChoice>, i: int) -> (DecoderView, Option<
    ProviderEventView,
>)
    decreases cs.len() - i,
{
    if i < 0 || i >= cs.len() {
        (d, None)
    } else {
        let delta = cs[i].delta;
        if delta.content is Some && delta.content->0@.len() > 0 {
            (d, Some(ProviderEventView::Content(delta.content->0@)))
        } else if delta.reasoning_content is Some && delta.reasoning_content->0@.len() > 0 {
            (d, Some(ProviderEventView::ReasoningContent(delta.reasoning_content->0@)))
        } else {
            let d1 = match delta.tool_calls {
                Some(tcs) => DecoderView { pending: apply_deltas_spec(d.pending, tcs@), ..d },
                None => d,
            };
            match cs[i].finish_reason {
                Some(FinishReason::ToolCalls) | Some(FinishReason::FunctionCall) => {
                    let d2 = flush_spec(d1);
                    if d2.events.len() > 0 {
                        pop_spec(d2)
                    } else {
                        choices_step(d2, cs, i + 1)
                    }
                },
                Some(FinishReason::Length) => emit_spec(d1, StopReasonView::Length),
                Some(FinishReason::Stop) => emit_spec(d1, StopReasonView::Stop),
                Some(FinishReason::ContentFilter) => emit_spec(
                    d1,
                    StopReasonView::Error("Content filtered"@),
                ),
                None => choices_step(d1, cs, i + 1),
            }
        }
    }
}

/// One chunk: its usage, where it has one, replaces the held usage, then its
/// choices are taken in order.
pub open spec fn chunk_step(d: DecoderView, chunk: StreamChunk) -> (DecoderView, Option<
    ProviderEventView,
>) {
    let d0 = DecoderView {
        usage: if chunk.usage is Some {
            chunk.usage
        } else {
            d.usage
        },
        ..d
    };
    choices_step(d0, chunk.choices@, 0)
}

/// Whether a `data:` payload is the end-of-stream marker.
pub open spec fn is_done_marker_spec(data: Seq<char>) -> bool {
    trim(data) == "[DONE]"@
}

/// Whether a `data:` payload, trimmed, is `[DONE]`.
pub fn is_done_marker(data: &str) -> (r: bool)
    ensures
        r == is_done_marker_spec(data@),
{
    let t = trim_string(data);
    crate::text::str_equal(t.as_str(), "[DONE]")
}

/// The pending calls of a list of entries.
pub open spec fn pending_view(s: Seq<(usize, PendingToolCall)>) -> Seq<(usize, PendingView)> {
    s.map_values(|e: (usize, PendingToolCall)| (e.0, e.1@))
}

/// The events of a list.
pub open spec fn events_view(s: Seq<ProviderEvent>) -> Seq<ProviderEventView> {
    s.map_values(|e: ProviderEvent| e@)
}

/// Indices in strictly increasing order.
pub open spec fn indices_increasing(s: Seq<(usize, PendingView)>) -> bool {
    forall|i: int, j: int| 0 <= i < j < s.len() ==> s[i].0 < s[j].0
}

proof fn lemma_lower_bound(s: Seq<(usize, PendingView)>, idx: usize)
    requires
        indices_increasing(s),
    ensures
        0 <= lower_bound(s, idx) <= s.len(),
        forall|j: int| 0 <= j < lower_bound(s, idx) ==> s[j].0 < idx,
        forall|j: int| lower_bound(s, idx) <= j < s.len() ==> s[j].0 >= idx,
    decreases s.len(),
{
    if s.len() > 0 && s[0].0 < idx {
        let t = s.drop_first();
        assert(indices_increasing(t)) by {
            assert forall|i: int, j: int| 0 <= i < j < t.len() implies t[i].0 < t[j].0 by {
                assert(t[i] == s[i + 1]);
                assert(t[j] == s[j + 1]);
            }
        }
        lemma_lower_bound(t, idx);
        assert forall|j: int| 0 <= j < lower_bound(s, idx) implies s[j].0 < idx by {
            if j > 0 {
                assert(s[j] == t[j - 1]);
            }
        }
        assert forall|j: int| lower_bound(s, idx) <= j < s.len() implies s[j].0 >= idx by {
            assert(s[j] == t[j - 1]);
        }
    } else if s.len() > 0 {
        assert forall|j: int| 0 <= j < s.len() implies s[j].0 >= idx by {
            if j > 0 {
                assert(s[0].0 < s[j].0);
            }
        }
    }
}

/// Decoder state for one OpenAI-style stream; the bytes and their parsing
/// into chunks are the caller's part.
#[derive(Debug)]
pub struct OpenAIV1Stream {
    pending_tool_calls: Vec<(usize, PendingToolCall)>,
    usage: Option<StreamUsage>,
    terminated: bool,
    pending_events: Vec<ProviderEvent>,
}

impl View for OpenAIV1Stream {
    type V = DecoderView;

    closed spec fn view(&self) -> DecoderView {
        DecoderView {
            pending: pending_view(self.pending_tool_calls@),
            usage: self.usage,
            terminated: self.terminated,
            events: events_view(self.pending_events@),
        }
    }
}

/// Merges a fragment into a pending call.
fn merge_into(p: &mut PendingToolCall, tc: &StreamDeltaToolCall)
    ensures
        final(p)@ == merge_delta(old(p)@, *tc),
{
    match &tc.id {
        Some(id) => {
            p.id = Some(id.clone());
        },
        None => {},
    }
    match &tc.function {
        Some(f) => {
            match &f.name {
                Some(n) => {
                    p.name = Some(n.clone());
                },
                None => {},
            }
            match &f.arguments {
                Some(a) => {
                    push_str(&mut p.arguments, a.as_str());
                },
                None => {},
            }
        },
        None => {},
    }
}

impl OpenAIV1Stream {
    /// Pending calls are kept in increasing index order.
    #[verifier::type_invariant]
    spec fn well_formed(self) -> bool {
        indices_increasing(pending_view(self.pending_tool_calls@))
    }

    /// The decoder at the start of a stream.
    pub fn new() -> (r: Self)
        ensures
            r@ == (DecoderView {
                pending: Seq::empty(),
                usage: None,
                terminated: false,
                events: Seq::empty(),
            }),
    {
        let r = OpenAIV1Stream {
            pending_tool_calls: Vec::new(),
            usage: None,
            terminated: false,
            pending_events: Vec::new(),
        };
        assert(pending_view(r.pending_tool_calls@) =~= Seq::<(usize, PendingView)>::empty());
        assert(events_view(r.pending_events@) =~= Seq::<ProviderEventView>::empty());
        r
    }

    /// Hands out the usage reported so far, converted, and forgets it.
    pub fn take_usage(&mut self) -> (r: Option<Usage>)
        ensures
            final(self)@ == (DecoderView { usage: None, ..old(self)@ }),
            match old(self)@.usage {
                Some(u) => r == Some(
                    Usage {
                        total_input: u.prompt_tokens,
                        total_output: u.completion_tokens,
                        cache_hit: false,
                        cache_miss: 0,
                    },
                ),
                None => r is None,
            },
    {
        proof {
            use_type_invariant(&*self);
        }
        let u = self.usage;
        self.usage = None;
        match u {
            Some(u) => Some(
                Usage {
                    total_input: u.prompt_tokens,
                    total_output: u.completion_tokens,
                    cache_hit: false,
                    cache_miss: 0,
                },
            ),
            None => None,
        }
    }

    /// Hands out the most recently released event, if any.
    pub fn pop_buffered(&mut self) -> (r: Option<ProviderEvent>)
        ensures
            (final(self)@, opt_event(r)) == pop_spec(old(self)@),
    {
        proof {
            use_type_invariant(&*self);
        }
        let ghost before = self.pending_events@;
        let mut events: Vec<ProviderEvent> = Vec::new();
        std::mem::swap(&mut events, &mut self.pending_events);
        let r = events.pop();
        proof {
            if before.len() > 0 {
                assert(events_view(events@) =~= events_view(before).drop_last());
            } else {
                assert(events_view(events@) =~= events_view(before));
            }
        }
        self.pending_events = events;
        r
    }

    /// Gathers one tool-call fragment.
    pub fn apply_tool_call_delta(&mut self, tc: &StreamDeltaToolCall)
        ensures
            final(self)@ == (DecoderView {
                pending: apply_delta_spec(old(self)@.pending, *tc),
                ..old(self)@
            }),
    {
        proof {
            use_type_invariant(&*self);
        }
        let mut calls: Vec<(usize, PendingToolCall)> = Vec::new();
        std::mem::swap(&mut calls, &mut self.pending_tool_calls);
        let ghost s = pending_view(calls@);
        proof {
            lemma_lower_bound(s, tc.index);
        }
        let mut p: usize = 0;
        while p < calls.len() && calls[p].0 < tc.index
            invariant
                s == pending_view(calls@),
                indices_increasing(s),
                p <= calls@.len(),
                p <= lower_bound(s, tc.index),
                0 <= lower_bound(s, tc.index) <= s.len(),
                forall|j: int| lower_bound(s, tc.index) <= j < s.len() ==> s[j].0 >= tc.index,
            decreases calls.len() - p,
        {
            assert(s[p as int].0 == calls@[p as int].0);
            p += 1;
        }
        proof {
            if p < calls@.len() {
                assert(s[p as int].0 == calls@[p as int].0);
            }
        }
        assert(p == lower_bound(s, tc.index));
        if p < calls.len() && calls[p].0 == tc.index {
            let (idx, mut pending) = calls.remove(p);
            merge_into(&mut pending, tc);
            calls.insert(p, (idx, pending));
            proof {
                assert(pending_view(calls@) =~= s.update(p as int, (tc.index, merge_delta(s[p as int].1, *tc))));
            }
        } else {
            let mut pending = PendingToolCall { id: None, name: None, arguments: String::new() };
            merge_into(&mut pending, tc);
            calls.insert(p, (tc.index, pending));
            proof {
                assert(pending_view(calls@) =~= s.insert(p as int, (tc.index, merge_delta(empty_pending(), *tc))));
            }
        }
        proof {
            let t = pending_view(calls@);
            assert forall|i: int, j: int| 0 <= i < j < t.len() implies t[i].0 < t[j].0 by {
                if t.len() == s.len() {
                    assert(t[i].0 == s[i].0);
                    assert(t[j].0 == s[j].0);
                } else {
                    let i0 = if i < p { i } else { i - 1 };
                    let j0 = if j < p { j } else { j - 1 };
                    if i != p && j != p {
                        assert(t[i] == s[i0]);
                        assert(t[j] == s[j0]);
                    } else if i == p {
                        assert(t[j] == s[j0]);
                    } else {
                        assert(t[i] == s[i0]);
                    }
                }
            }
        }
        self.pending_tool_calls = calls;
    }

    /// Releases every pending call onto the stack of events, highest index
    /// first.
    pub fn flush_all_pending_tool_calls(&mut self)
        ensures
            final(self)@ == flush_spec(old(self)@),
    {
        proof {
            use_type_invariant(&*self);
        }
        let mut calls: Vec<(usize, PendingToolCall)> = Vec::new();
        std::mem::swap(&mut calls, &mut self.pending_tool_calls);
        let mut events: Vec<ProviderEvent> = Vec::new();
        std::mem::swap(&mut events, &mut self.pending_events);
        let ghost s = pending_view(calls@);
        let ghost e0 = events_view(events@);
        let ghost n = s.len();
        assert(flushed_events(s).take(0) =~= Seq::<ProviderEventView>::empty());
        assert(e0 + Seq::<ProviderEventView>::empty() =~= e0);
        assert(s.take(n as int) =~= s);
        while calls.len() > 0
            invariant
                calls@.len() <= n,
                n == s.len(),
                pending_view(calls@) == s.take(calls@.len() as int),
                events_view(events@) == e0 + flushed_events(s).take(n - calls@.len()),
            decreases calls.len(),
        {
            let ghost k = calls@.len();
            let ghost cb = calls@;
            let (_, p) = calls.pop().unwrap();
            proof {
                assert(pending_view(cb)[k - 1] == (cb[k - 1].0, cb[k - 1].1@));
                assert(s.take(k as int)[k - 1] == s[k - 1]);
            }
            assert(p@ == s[k - 1].1);
            let args = parse_json_or_null(p.arguments.as_str());
            let id = match p.id {
                Some(x) => x,
                None => String::new(),
            };
            let name = match p.name {
                Some(x) => x,
                None => String::new(),
            };
            let ghost before = events@;
            events.push(ProviderEvent::ToolCall(ToolCall { id, name, args }));
            proof {
                assert(pending_view(calls@) =~= s.take(k - 1));
                assert(flushed_events(s).take(n - k + 1) =~= flushed_events(s).take(n - k).push(
                    pending_event(s[k - 1].1),
                ));
                assert(events_view(events@) =~= events_view(before).push(
                    pending_event(s[k - 1].1),
                ));
            }
        }
        proof {
            assert(flushed_events(s).take(n as int) =~= flushed_events(s));
            assert(pending_view(calls@) =~= Seq::<(usize, PendingView)>::empty());
        }
        self.pending_tool_calls = calls;
        self.pending_events = events;
    }

    /// Produces the end of the message with `reason`, once only.
    pub fn emit_termination(&mut self, reason: StopReason) -> (r: Option<ProviderEvent>)
        ensures
            (final(self)@, opt_event(r)) == emit_spec(old(self)@, reason@),
    {
        proof {
            use_type_invariant(&*self);
        }
        if self.terminated {
            return None;
        }
        self.terminated = true;
        Some(ProviderEvent::MessageEnd(reason))
    }

    /// One step at the end of the stream, by its `[DONE]` marker or by its
    /// close: called until it gives `None`, it hands out every call still
    /// pending or released, in increasing index order, and then the end of
    /// the message, last.
    pub fn take_termination(&mut self) -> (r: Option<ProviderEvent>)
        ensures
            (final(self)@, opt_event(r)) == done_spec(old(self)@),
    {
        self.flush_all_pending_tool_calls();
        match self.pop_buffered() {
            Some(e) => Some(e),
            None => self.emit_termination(StopReason::Stop),
        }
    }

    /// Takes one parsed chunk.
    pub fn handle_chunk(&mut self, chunk: &StreamChunk) -> (r: Option<ProviderEvent>)
        ensures
            (final(self)@, opt_event(r)) == chunk_step(old(self)@, *chunk),
    {
        proof {
            use_type_invariant(&*self);
        }
        if chunk.usage.is_some() {
            self.usage = chunk.usage;
        }
        let mut i: usize = 0;
        while i < chunk.choices.len()
            invariant
                i <= chunk.choices@.len(),
                chunk_step(old(self)@, *chunk) == choices_step(self@, chunk.choices@, i as int),
            decreases chunk.choices.len() - i,
        {
            let choice = &chunk.choices[i];
            let delta = &choice.delta;
            match &delta.content {
                Some(content) => {
                    if !content.as_str().is_empty() {
                        return Some(ProviderEvent::Content(content.clone()));
                    }
                },
                None => {},
            }
            match &delta.reasoning_content {
                Some(reasoning) => {
                    if !reasoning.as_str().is_empty() {
                        return Some(ProviderEvent::ReasoningContent(reasoning.clone()));
                    }
                },
                None => {},
            }
            let ghost d = self@;
            match &delta.tool_calls {
                Some(tcs) => {
                    let mut j: usize = 0;
                    while j < tcs.len()
                        invariant
                            j <= tcs@.len(),
                            self@ == (DecoderView {
                                pending: apply_deltas_spec(d.pending, tcs@.take(j as int)),
                                ..d
                            }),
                        decreases tcs.len() - j,
                    {
                        proof {
                            assert(tcs@.take(j + 1).drop_last() =~= tcs@.take(j as int));
                        }
                        self.apply_tool_call_delta(&tcs[j]);
                        j += 1;
                    }
                    assert(tcs@.take(tcs@.len() as int) =~= tcs@);
                },
                None => {},
            }
            match choice.finish_reason {
                Some(FinishReason::ToolCalls) | Some(FinishReason::FunctionCall) => {
                    self.flush_all_pending_tool_calls();
                    if self.pending_events.len() > 0 {
                        return self.pop_buffered();
                    }
                },
                Some(FinishReason::Length) => {
                    return self.emit_termination(StopReason::Length);
                },
                Some(FinishReason::Stop) => {
                    return self.emit_termination(StopReason::Stop);
                },
                Some(FinishReason::ContentFilter) => {
                    let mut e = String::new();
                    push_str(&mut e, "Content filtered");
                    return self.emit_termination(StopReason::Error(e));
                },
                None => {},
            }
            i += 1;
        }
        None
    }
}


// ---------------------------------------------------------------------------
// Laws
// ---------------------------------------------------------------------------

/// What the decoder is handed: a parsed chunk, the end of the stream, or a
/// request for a released event.
pub enum StreamInput {
    Chunk(StreamChunk),
    Done,
    Pop,
}

/// One input.
pub open spec fn input_step(d: DecoderView, i: StreamInput) -> (DecoderView, Option<ProviderEventView>) {
    match i {
        StreamInput::Chunk(c) => chunk_step(d, c),
        StreamInput::Done => done_spec(d),
        StreamInput::Pop => pop_spec(d),
    }
}

/// A sequence of inputs, with every event produced.
pub open spec fn run_spec(d: DecoderView, ins: Seq<StreamInput>) -> (DecoderView, Seq<ProviderEventView>)
    decreases ins.len(),
{
    if ins.len() == 0 {
        (d, Seq::empty())
    } else {
        let (d1, out) = run_spec(d, ins.drop_last());
        let (d2, e) = input_step(d1, ins.last());
        (
            d2,
            match e {
                Some(x) => out.push(x),
                None => out,
            },
        )
    }
}

/// How many ends of message a list of events holds.
pub open spec fn end_count(s: Seq<ProviderEventView>) -> nat
    decreases s.len(),
{
    if s.len() == 0 {
        0
    } else {
        end_count(s.drop_last()) + if s.last() is MessageEnd {
            1nat
        } else {
            0nat
        }
    }
}

/// Every released event is a tool call.
pub open spec fn only_tool_calls(s: Seq<ProviderEventView>) -> bool {
    forall|i: int| 0 <= i < s.len() ==> (#[trigger] s[i]) is ToolCall
}

/// An event produced by a step either ends the message, from a state that
/// had not ended it, or leaves the end flag as it was.
pub open spec fn step_ok(d: DecoderView, r: (DecoderView, Option<ProviderEventView>)) -> bool {
    &&& only_tool_calls(r.0.events)
    &&& if r.1 is Some && r.1->0 is MessageEnd {
        !d.terminated && r.0.terminated
    } else {
        r.0.terminated == d.terminated
    }
}

proof fn lemma_flush_only_tool_calls(d: DecoderView)
    requires
        only_tool_calls(d.events),
    ensures
        only_tool_calls(flush_spec(d).events),
        flush_spec(d).terminated == d.terminated,
{
    let e = flush_spec(d).events;
    assert forall|i: int| 0 <= i < e.len() implies (#[trigger] e[i]) is ToolCall by {
        if i >= d.events.len() {
            assert(e[i] == flushed_events(d.pending)[i - d.events.len()]);
        }
    }
}

proof fn lemma_choices_ok(d: DecoderView, cs: Seq<StreamChoice>, i: int)
    requires
        only_tool_calls(d.events),
    ensures
        step_ok(d, choices_step(d, cs, i)),
    decreases cs.len() - i,
{
    if 0 <= i < cs.len() {
        let delta = cs[i].delta;
        if delta.content is Some && delta.content->0@.len() > 0 {
        } else if delta.reasoning_content is Some && delta.reasoning_content->0@.len() > 0 {
        } else {
            let d1 = match delta.tool_calls {
                Some(tcs) => DecoderView { pending: apply_deltas_spec(d.pending, tcs@), ..d },
                None => d,
            };
            lemma_flush_only_tool_calls(d1);
            let d2 = flush_spec(d1);
            if d2.events.len() > 0 {
                assert(d2.events.last() == d2.events[d2.events.len() - 1]);
                assert forall|k: int| 0 <= k < d2.events.drop_last().len() implies (
                #[trigger] d2.events.drop_last()[k]) is ToolCall by {
                    assert(d2.events.drop_last()[k] == d2.events[k]);
                }
            }
            lemma_choices_ok(d1, cs, i + 1);
            lemma_choices_ok(d2, cs, i + 1);
        }
    }
}

proof fn lemma_input_ok(d: DecoderView, inp: StreamInput)
    requires
        only_tool_calls(d.events),
    ensures
        step_ok(d, input_step(d, inp)),
{
    match inp {
        StreamInput::Chunk(c) => {
            let d0 = DecoderView {
                usage: if c.usage is Some {
                    c.usage
                } else {
                    d.usage
                },
                ..d
            };
            lemma_choices_ok(d0, c.choices@, 0);
        },
        StreamInput::Done => {
            lemma_flush_only_tool_calls(d);
            lemma_pop_ok(flush_spec(d));
        },
        StreamInput::Pop => {
            lemma_pop_ok(d);
        },
    }
}

proof fn lemma_pop_ok(d: DecoderView)
    requires
        only_tool_calls(d.events),
    ensures
        step_ok(d, pop_spec(d)),
        d.events.len() > 0 ==> (pop_spec(d).1 matches Some(e) && e is ToolCall),
{
    if d.events.len() > 0 {
        assert(d.events.last() == d.events[d.events.len() - 1]);
        assert forall|k: int| 0 <= k < d.events.drop_last().len() implies (
        #[trigger] d.events.drop_last()[k]) is ToolCall by {
            assert(d.events.drop_last()[k] == d.events[k]);
        }
    }
}

/// A stream produces at most one end of message: over any sequence of
/// inputs, the ends of message produced, together with one already produced
/// before, number one if the decoder has ended the message and none
/// otherwise.
pub proof fn law_single_message_end(d: DecoderView, ins: Seq<StreamInput>)
    requires
        only_tool_calls(d.events),
    ensures
        only_tool_calls(run_spec(d, ins).0.events),
        end_count(run_spec(d, ins).1) + (if d.terminated {
            1nat
        } else {
            0nat
        }) == (if run_spec(d, ins).0.terminated {
            1nat
        } else {
            0nat
        }),
    decreases ins.len(),
{
    if ins.len() > 0 {
        law_single_message_end(d, ins.drop_last());
        let (d1, out) = run_spec(d, ins.drop_last());
        lemma_input_ok(d1, ins.last());
        let (d2, e) = input_step(d1, ins.last());
        if e is Some {
            assert(out.push(e->0).drop_last() =~= out);
        }
    }
}

/// The first step at the end of the stream releases every pending call and
/// hands out a released call while there is one; only when none is left
/// does it end the message, if that was not done.
pub proof fn law_done_terminates(d: DecoderView)
    ensures
        done_spec(d).0.pending.len() == 0,
        flush_spec(d).events.len() > 0 ==> (done_spec(d).1 matches Some(e) && e == flush_spec(d).events.last()),
        flush_spec(d).events.len() == 0 ==> done_spec(d).0.terminated && (done_spec(d).1 is Some <==> !d.terminated),
{
}

/// `n` end-of-stream steps.
pub open spec fn dones(n: nat) -> Seq<StreamInput> {
    Seq::new(n, |i: int| StreamInput::Done)
}

/// Events in the order a stack hands them out: the last first.
pub open spec fn popped_order(s: Seq<ProviderEventView>) -> Seq<ProviderEventView> {
    Seq::new(s.len(), |i: int| s[s.len() - 1 - i])
}

/// What the end of the stream hands out: the released calls, then the end
/// of the message if it was not produced before.
pub open spec fn end_of_stream_events(d: DecoderView) -> Seq<ProviderEventView> {
    popped_order(flush_spec(d).events) + if d.terminated {
        Seq::<ProviderEventView>::empty()
    } else {
        seq![ProviderEventView::MessageEnd(StopReasonView::Stop)]
    }
}

proof fn lemma_dones_drop_last(n: nat)
    requires
        n > 0,
    ensures
        dones(n).drop_last() == dones((n - 1) as nat),
        dones(n).last() == StreamInput::Done,
{
    assert(dones(n).drop_last() =~= dones((n - 1) as nat));
}

proof fn lemma_flush_idempotent(d: DecoderView)
    ensures
        flush_spec(flush_spec(d)) == flush_spec(d),
        d.pending.len() == 0 ==> flush_spec(d) == d,
{
    assert(flushed_events(Seq::<(usize, PendingView)>::empty()) =~= Seq::<ProviderEventView>::empty());
    assert(flush_spec(d).events + flushed_events(flush_spec(d).pending) =~= flush_spec(d).events);
    if d.pending.len() == 0 {
        assert(d.pending =~= Seq::<(usize, PendingView)>::empty());
        assert(d.events + flushed_events(d.pending) =~= d.events);
    }
}

proof fn lemma_run_from_flushed(d: DecoderView, n: nat)
    requires
        n > 0,
    ensures
        run_spec(d, dones(n)) == run_spec(flush_spec(d), dones(n)),
    decreases n,
{
    lemma_dones_drop_last(n);
    lemma_flush_idempotent(d);
    assert(done_spec(d) == done_spec(flush_spec(d)));
    if n > 1 {
        lemma_run_from_flushed(d, (n - 1) as nat);
    } else {
        assert(dones(0).len() == 0);
        assert(run_spec(d, dones(0)) == (d, Seq::<ProviderEventView>::empty()));
        assert(run_spec(flush_spec(d), dones(0)) == (flush_spec(d), Seq::<ProviderEventView>::empty()));
    }
    assert(run_spec(d, dones(n)) == ({
        let (d1, out) = run_spec(d, dones((n - 1) as nat));
        let (d2, e) = input_step(d1, StreamInput::Done);
        (d2, match e { Some(x) => out.push(x), None => out })
    }));
}

proof fn lemma_drain(g: DecoderView, m: nat)
    requires
        g.pending.len() == 0,
        m <= g.events.len(),
    ensures
        run_spec(g, dones(m)).0 == (DecoderView { events: g.events.take(g.events.len() - m), ..g }),
        run_spec(g, dones(m)).1 == popped_order(g.events.skip(g.events.len() - m)),
    decreases m,
{
    let k = g.events.len();
    if m == 0 {
        assert(dones(0) =~= Seq::<StreamInput>::empty());
        assert(g.events.take(k as int) =~= g.events);
        assert(popped_order(g.events.skip(k as int)) =~= Seq::<ProviderEventView>::empty());
        assert(DecoderView { events: g.events.take(k as int), ..g } == g);
    } else {
        lemma_dones_drop_last(m);
        lemma_drain(g, (m - 1) as nat);
        let s1 = DecoderView { events: g.events.take(k - (m - 1)), ..g };
        lemma_flush_idempotent(s1);
        assert(s1.events.drop_last() =~= g.events.take(k - m));
        assert(s1.events.last() == g.events[k - m]);
        assert(popped_order(g.events.skip(k - (m - 1))).push(g.events[k - m]) =~= popped_order(
            g.events.skip(k - m),
        ));
    }
}

/// At the end of the stream, taking steps until nothing comes hands out the
/// released calls in the order of the stack (for calls that were pending,
/// increasing index order), and then the end of the message, last, if it was
/// not produced before; after that the decoder is drained and ended, and
/// nothing more follows.
pub proof fn law_end_of_stream_order(d: DecoderView)
    ensures
        ({
            let n = (flush_spec(d).events.len() + 1) as nat;
            let (e, out) = run_spec(d, dones(n));
            &&& out == end_of_stream_events(d)
            &&& e.terminated
            &&& e.pending.len() == 0
            &&& e.events.len() == 0
            &&& done_spec(e).1 is None
            &&& pop_spec(e).1 is None
            &&& !d.terminated ==> out.last() == ProviderEventView::MessageEnd(StopReasonView::Stop)
            &&& d.events.len() == 0 ==> forall|j: int|
                0 <= j < d.pending.len() ==> #[trigger] out[j] == pending_event(d.pending[j].1)
        }),
{
    let f = flush_spec(d);
    let k = f.events.len();
    let n = (k + 1) as nat;
    lemma_run_from_flushed(d, n);
    lemma_dones_drop_last(n);
    lemma_drain(f, k);
    let g = DecoderView { events: f.events.take(0), ..f };
    assert(f.events.skip(0) =~= f.events);
    assert(g.events =~= Seq::<ProviderEventView>::empty());
    lemma_flush_idempotent(g);
    let (e, out) = run_spec(d, dones(n));
    if d.terminated {
        assert(out =~= end_of_stream_events(d));
    } else {
        assert(out =~= end_of_stream_events(d));
    }
    lemma_flush_idempotent(e);
    if d.events.len() == 0 {
        assert forall|j: int| 0 <= j < d.pending.len() implies #[trigger] out[j] == pending_event(
            d.pending[j].1,
        ) by {
            assert(f.events =~= flushed_events(d.pending));
            assert(out[j] == popped_order(f.events)[j]);
        }
    }
}

/// Released calls are handed out in increasing index order: the `j`-th
/// event taken off the stack after a release is the call at the `j`-th
/// lowest index.
pub proof fn law_flush_in_index_order(s: Seq<(usize, PendingView)>, j: int)
    requires
        0 <= j < s.len(),
    ensures
        flushed_events(s)[flushed_events(s).len() - 1 - j] == pending_event(s[j].1),
{
}

/// A chunk whose first choice carries no text ends the message by its
/// finish reason: a length finish (the token limit) with `Length`, a stop
/// with `Stop`, a content filter with an error saying so; a message already
/// ended is not ended again. The usage the chunk carries is kept either way.
pub proof fn law_finish_reason_decides_end(d: DecoderView, c: StreamChunk)
    requires
        c.choices@.len() >= 1,
        c.choices@[0].delta.content is None || c.choices@[0].delta.content->0@.len() == 0,
        c.choices@[0].delta.reasoning_content is None || c.choices@[0].delta.reasoning_content->0@.len() == 0,
    ensures
        c.choices@[0].finish_reason == Some(FinishReason::Length) ==> chunk_step(d, c).1 == (if d.terminated {
            None
        } else {
            Some(ProviderEventView::MessageEnd(StopReasonView::Length))
        }),
        c.choices@[0].finish_reason == Some(FinishReason::Stop) ==> chunk_step(d, c).1 == (if d.terminated {
            None
        } else {
            Some(ProviderEventView::MessageEnd(StopReasonView::Stop))
        }),
        c.choices@[0].finish_reason == Some(FinishReason::ContentFilter) ==> chunk_step(d, c).1 == (
        if d.terminated {
            None
        } else {
            Some(ProviderEventView::MessageEnd(StopReasonView::Error("Content filtered"@)))
        }),
        c.choices@[0].finish_reason == Some(FinishReason::Length) || c.choices@[0].finish_reason == Some(
            FinishReason::Stop,
        ) || c.choices@[0].finish_reason == Some(FinishReason::ContentFilter) ==> chunk_step(d, c).0.terminated,
        chunk_step(d, c).0.usage == if c.usage is Some {
            c.usage
        } else {
            d.usage
        },
{
    let d0 = DecoderView {
        usage: if c.usage is Some {
            c.usage
        } else {
            d.usage
        },
        ..d
    };
    lemma_choices_keep_usage(d0, c.choices@, 0);
}

proof fn lemma_choices_keep_usage(d: DecoderView, cs: Seq<StreamChoice>, i: int)
    ensures
        choices_step(d, cs, i).0.usage == d.usage,
    decreases cs.len() - i,
{
    if 0 <= i < cs.len() {
        let delta = cs[i].delta;
        let d1 = match delta.tool_calls {
            Some(tcs) => DecoderView { pending: apply_deltas_spec(d.pending, tcs@), ..d },
            None => d,
        };
        lemma_choices_keep_usage(d1, cs, i + 1);
        lemma_choices_keep_usage(flush_spec(d1), cs, i + 1);
    }
}

} // verus!
