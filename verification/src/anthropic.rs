//! Decoding of an Anthropic messages stream: text and thinking pass
//! through, a tool use whose input streams in is gathered by block index
//! until its block stops, and the recorded stop reason decides how the
//! message ends.
use std::collections::HashMap;
use vstd::prelude::*;

use crate::message::{
    json_or_null, json_text, json_to_string, opt_event, parse_json_or_null, ProviderEvent,
    ProviderEventView, StopReason, StopReasonView, ToolCall, ToolCallView, Usage,
};
use crate::text::{push_str, str_equal};

verus! {

broadcast use {vstd::string::group_string_axioms, vstd::std_specs::hash::group_hash_axioms};

/// Token counts of a message.
#[derive(Debug, Clone, Copy)]
pub struct AnthropicUsage {
    pub cache_creation_input_tokens: usize,
    pub cache_read_input_tokens: usize,
    pub input_tokens: usize,
    pub output_tokens: usize,
}

/// Why the model stopped, as the stream reports it.
#[derive(Debug, Clone, Copy, PartialEq, Eq, Structural)]
pub enum AnthropicStopReason {
    EndTurn,
    MaxTokens,
    StopSequence,
    ToolUse,
    PauseTurn,
    Refusal,
}

/// A content block as it starts.
#[derive(Debug, Clone)]
pub enum ContentBlock {
    TextBlock { text: String },
    ThinkingBlock { signature: String, thinking: String },
    ToolUseBlock { id: String, input: serde_json::Value, name: String },
}

/// What a delta adds to a content block.
#[derive(Debug, Clone)]
pub enum RawContentBlockDelta {
    TextDelta { text: String },
    InputJsonDelta { partial_json: String },
    ThinkingDelta { thinking: String },
    SignatureDelta { signature: String },
}

/// The message that a stream starts with: its initial blocks and usage.
#[derive(Debug, Clone)]
pub struct StartMessage {
    pub content: Vec<ContentBlock>,
    pub usage: AnthropicUsage,
}

/// One parsed event of the stream.
#[derive(Debug, Clone)]
pub enum RawMessageStreamEvent {
    RawMessageStartEvent { message: StartMessage },
    RawMessageDeltaEvent { stop_reason: Option<AnthropicStopReason>, output_tokens: Option<usize> },
    RawMessageStopEvent,
    RawContentBlockStartEvent { index: usize, block: ContentBlock },
    RawContentBlockDeltaEvent { index: usize, delta: RawContentBlockDelta },
    RawContentBlockStopEvent { index: usize },
}

/// A tool use whose input is still arriving.
#[derive(Debug)]
pub struct PendingToolCall {
    pub id: String,
    pub name: String,
    pub json_fragment: String,
}

/// The mathematical content of a [`PendingToolCall`].
pub struct PendingUseView {
    pub id: Seq<char>,
    pub name: Seq<char>,
    pub json: Seq<char>,
}

impl View for PendingToolCall {
    type V = PendingUseView;

    open spec fn view(&self) -> PendingUseView {
        PendingUseView { id: self.id@, name: self.name@, json: self.json_fragment@ }
    }
}

/// The state of a decoder.
pub struct AnthropicView {
    pub pending: Map<usize, PendingUseView>,
    pub usage: Option<AnthropicUsage>,
    pub stop_reason: Option<AnthropicStopReason>,
}

/// The stop reason that ends the message: a token limit, a refusal, and
/// every other reason (or none) a normal stop.
pub open spec fn map_stop_reason_spec(r: Option<AnthropicStopReason>) -> StopReasonView {
    match r {
        Some(AnthropicStopReason::MaxTokens) => StopReasonView::Length,
        Some(AnthropicStopReason::Refusal) => StopReasonView::Error("Model refused the request"@),
        _ => StopReasonView::Stop,
    }
}

/// The JSON text of an input that streams in separately.
pub open spec fn empty_input_text() -> Seq<char> {
    "{}"@
}

/// The start of a content block: non-empty text or thinking passes
/// through; a tool use with an empty input waits for its input, and one with
/// its input given is a complete call.
pub open spec fn block_start_spec(d: AnthropicView, index: usize, block: ContentBlock) -> (
    AnthropicView,
    Option<ProviderEventView>,
) {
    match block {
        ContentBlock::TextBlock { text } => if text@.len() > 0 {
            (d, Some(ProviderEventView::Content(text@)))
        } else {
            (d, None)
        },
        ContentBlock::ThinkingBlock { thinking, .. } => if thinking@.len() > 0 {
            (d, Some(ProviderEventView::ReasoningContent(thinking@)))
        } else {
            (d, None)
        },
        ContentBlock::ToolUseBlock { id, input, name } => if json_text(input) == empty_input_text() {
            (
                AnthropicView {
                    pending: d.pending.insert(
                        index,
                        PendingUseView { id: id@, name: name@, json: Seq::empty() },
                    ),
                    ..d
                },
                None,
            )
        } else {
            (d, Some(ProviderEventView::ToolCall(ToolCallView { id: id@, name: name@, args: input })))
        },
    }
}

/// The blocks of the starting message from position `i` on: the first that
/// produces an event ends the step; when none does, the message starts.
pub open spec fn start_blocks_spec(d: AnthropicView, blocks: Seq<ContentBlock>, i: int) -> (
    AnthropicView,
    Option<ProviderEventView>,
)
    decreases blocks.len() - i,
{
    if i < 0 || i >= blocks.len() {
        (d, Some(ProviderEventView::MessageStart))
    } else {
        let (d1, e) = block_start_spec(d, i as usize, blocks[i]);
        if e is Some {
            (d1, e)
        } else {
            start_blocks_spec(d1, blocks, i + 1)
        }
    }
}

/// One event of the stream.
pub open spec fn handle_delta_spec(d: AnthropicView, ev: RawMessageStreamEvent) -> (
    AnthropicView,
    Option<ProviderEventView>,
) {
    match ev {
        RawMessageStreamEvent::RawMessageStartEvent { message } => start_blocks_spec(
            AnthropicView { usage: Some(message.usage), ..d },
            message.content@,
            0,
        ),
        RawMessageStreamEvent::RawContentBlockStartEvent { index, block } => block_start_spec(
            d,
            index,
            block,
        ),
        RawMessageStreamEvent::RawContentBlockDeltaEvent { index, delta } => match delta {
            RawContentBlockDelta::TextDelta { text } => (d, Some(ProviderEventView::Content(text@))),
            RawContentBlockDelta::InputJsonDelta { partial_json } => if d.pending.contains_key(
                index,
            ) {
                (
                    AnthropicView {
                        pending: d.pending.insert(
                            index,
                            PendingUseView {
                                json: d.pending[index].json + partial_json@,
                                ..d.pending[index]
                            },
                        ),
                        ..d
                    },
                    None,
                )
            } else {
                (d, None)
            },
            RawContentBlockDelta::ThinkingDelta { thinking } => (
                d,
                Some(ProviderEventView::ReasoningContent(thinking@)),
            ),
            RawContentBlockDelta::SignatureDelta { .. } => (d, None),
        },
        RawMessageStreamEvent::RawContentBlockStopEvent { index } => if d.pending.contains_key(
            index,
        ) {
            (
                AnthropicView { pending: d.pending.remove(index), ..d },
                Some(
                    ProviderEventView::ToolCall(
                        ToolCallView {
                            id: d.pending[index].id,
                            name: d.pending[index].name,
                            args: json_or_null(d.pending[index].json),
                        },
                    ),
                ),
            )
        } else {
            (d, None)
        },
        RawMessageStreamEvent::RawMessageDeltaEvent { stop_reason, output_tokens } => {
            let stop = if stop_reason is Some {
                stop_reason
            } else {
                d.stop_reason
            };
            let usage = match (output_tokens, d.usage) {
                (Some(n), Some(u)) => Some(AnthropicUsage { output_tokens: n, ..u }),
                _ => d.usage,
            };
            (AnthropicView { stop_reason: stop, usage, ..d }, None)
        },
        RawMessageStreamEvent::RawMessageStopEvent => (
            d,
            Some(ProviderEventView::MessageEnd(map_stop_reason_spec(d.stop_reason))),
        ),
    }
}

/// Whether an SSE event is a keep-alive ping, which the decoder skips.
pub fn is_ping(event_type: &str) -> (r: bool)
    ensures
        r == (event_type@ == "ping"@),
{
    str_equal(event_type, "ping")
}

/// Decoder state for one Anthropic stream; the bytes and their parsing into
/// events are the caller's part.
#[derive(Debug)]
pub struct AnthropicStream {
    pending_tool_calls: HashMap<usize, PendingToolCall>,
    usage: Option<AnthropicUsage>,
    stop_reason: Option<AnthropicStopReason>,
}

impl View for AnthropicStream {
    type V = AnthropicView;

    closed spec fn view(&self) -> AnthropicView {
        AnthropicView {
            pending: self.pending_tool_calls@.map_values(|p: PendingToolCall| p@),
            usage: self.usage,
            stop_reason: self.stop_reason,
        }
    }
}

impl AnthropicStream {
    /// The decoder at the start of a stream.
    pub fn new() -> (r: Self)
        ensures
            r@ == (AnthropicView { pending: Map::empty(), usage: None, stop_reason: None }),
    {
        let r = AnthropicStream { pending_tool_calls: HashMap::new(), usage: None, stop_reason: None };
        assert(r@.pending =~= Map::<usize, PendingUseView>::empty());
        r
    }

    /// Hands out the usage reported so far, converted, and forgets it.
    pub fn take_usage(&mut self) -> (r: Option<Usage>)
        ensures
            final(self)@ == (AnthropicView { usage: None, ..old(self)@ }),
            match old(self)@.usage {
                Some(u) => r == Some(
                    Usage {
                        total_input: u.input_tokens,
                        total_output: u.output_tokens,
                        cache_hit: u.cache_read_input_tokens > 0,
                        cache_miss: u.cache_creation_input_tokens,
                    },
                ),
                None => r is None,
            },
    {
        let u = self.usage;
        self.usage = None;
        match u {
            Some(u) => Some(
                Usage {
                    total_input: u.input_tokens,
                    total_output: u.output_tokens,
                    cache_hit: u.cache_read_input_tokens > 0,
                    cache_miss: u.cache_creation_input_tokens,
                },
            ),
            None => None,
        }
    }

    /// The stop reason that ends the message.
    pub fn map_stop_reason(&self) -> (r: StopReason)
        ensures
            r@ == map_stop_reason_spec(self@.stop_reason),
    {
        match self.stop_reason {
            Some(AnthropicStopReason::MaxTokens) => StopReason::Length,
            Some(AnthropicStopReason::Refusal) => {
                let mut e = String::new();
                push_str(&mut e, "Model refused the request");
                StopReason::Error(e)
            },
            _ => StopReason::Stop,
        }
    }

    /// Takes the start of a content block.
    pub fn handle_content_block_start(&mut self, index: usize, block: &ContentBlock) -> (r: Option<
        ProviderEvent,
    >)
        ensures
            (final(self)@, opt_event(r)) == block_start_spec(old(self)@, index, *block),
    {
        match block {
            ContentBlock::TextBlock { text } => {
                if !text.as_str().is_empty() {
                    Some(ProviderEvent::Content(text.clone()))
                } else {
                    None
                }
            },
            ContentBlock::ThinkingBlock { thinking, .. } => {
                if !thinking.as_str().is_empty() {
                    Some(ProviderEvent::ReasoningContent(thinking.clone()))
                } else {
                    None
                }
            },
            ContentBlock::ToolUseBlock { id, name, input } => {
                let input_str = json_to_string(input);
                if str_equal(input_str.as_str(), "{}") {
                    let ghost before = self.pending_tool_calls@;
                    self.pending_tool_calls.insert(
                        index,
                        PendingToolCall { id: id.clone(), name: name.clone(), json_fragment: String::new() },
                    );
                    proof {
                        assert(self@.pending =~= before.map_values(|p: PendingToolCall| p@).insert(
                            index,
                            PendingUseView { id: id@, name: name@, json: Seq::empty() },
                        ));
                    }
                    None
                } else {
                    Some(
                        ProviderEvent::ToolCall(
                            ToolCall { id: id.clone(), name: name.clone(), args: input.clone() },
                        ),
                    )
                }
            },
        }
    }

    /// Takes one parsed event of the stream.
    pub fn handle_delta(&mut self, delta: RawMessageStreamEvent) -> (r: Option<ProviderEvent>)
        ensures
            (final(self)@, opt_event(r)) == handle_delta_spec(old(self)@, delta),
    {
        match delta {
            RawMessageStreamEvent::RawMessageStartEvent { message } => {
                self.usage = Some(message.usage);
                let mut i: usize = 0;
                while i < message.content.len()
                    invariant
                        i <= message.content@.len(),
                        handle_delta_spec(old(self)@, delta) == start_blocks_spec(
                            self@,
                            message.content@,
                            i as int,
                        ),
                    decreases message.content.len() - i,
                {
                    let e = self.handle_content_block_start(i, &message.content[i]);
                    if e.is_some() {
                        return e;
                    }
                    i += 1;
                }
                Some(ProviderEvent::MessageStart)
            },
            RawMessageStreamEvent::RawContentBlockStartEvent { index, block } => {
                self.handle_content_block_start(index, &block)
            },
            RawMessageStreamEvent::RawContentBlockDeltaEvent { index, delta } => match delta {
                RawContentBlockDelta::TextDelta { text } => Some(ProviderEvent::Content(text)),
                RawContentBlockDelta::InputJsonDelta { partial_json } => {
                    let ghost before = self.pending_tool_calls@;
                    match self.pending_tool_calls.remove(&index) {
                        Some(mut pending) => {
                            push_str(&mut pending.json_fragment, partial_json.as_str());
                            self.pending_tool_calls.insert(index, pending);
                            proof {
                                assert(self@.pending =~= before.map_values(
                                    |p: PendingToolCall| p@,
                                ).insert(
                                    index,
                                    PendingUseView {
                                        json: before[index]@.json + partial_json@,
                                        ..before[index]@
                                    },
                                ));
                            }
                        },
                        None => {
                            proof {
                                assert(self.pending_tool_calls@ =~= before);
                            }
                        },
                    }
                    None
                },
                RawContentBlockDelta::ThinkingDelta { thinking } => Some(
                    ProviderEvent::ReasoningContent(thinking),
                ),
                RawContentBlockDelta::SignatureDelta { .. } => None,
            },
            RawMessageStreamEvent::RawContentBlockStopEvent { index } => {
                let ghost before = self.pending_tool_calls@;
                match self.pending_tool_calls.remove(&index) {
                    Some(pending) => {
                        proof {
                            assert(self@.pending =~= before.map_values(|p: PendingToolCall| p@).remove(
                                index,
                            ));
                        }
                        let args = parse_json_or_null(pending.json_fragment.as_str());
                        Some(
                            ProviderEvent::ToolCall(
                                ToolCall { id: pending.id, name: pending.name, args },
                            ),
                        )
                    },
                    None => {
                        proof {
                            assert(self.pending_tool_calls@ =~= before);
                        }
                        None
                    },
                }
            },
            RawMessageStreamEvent::RawMessageDeltaEvent { stop_reason, output_tokens } => {
                if stop_reason.is_some() {
                    self.stop_reason = stop_reason;
                }
                match (output_tokens, self.usage) {
                    (Some(n), Some(u)) => {
                        self.usage = Some(AnthropicUsage { output_tokens: n, ..u });
                    },
                    _ => {},
                }
                None
            },
            RawMessageStreamEvent::RawMessageStopEvent => Some(
                ProviderEvent::MessageEnd(self.map_stop_reason()),
            ),
        }
    }
}


/// The state after the input fragments `frags` of block `index`, in order.
pub open spec fn feed_input(d: AnthropicView, index: usize, frags: Seq<String>) -> AnthropicView
    decreases frags.len(),
{
    if frags.len() == 0 {
        d
    } else {
        handle_delta_spec(
            feed_input(d, index, frags.drop_last()),
            RawMessageStreamEvent::RawContentBlockDeltaEvent {
                index,
                delta: RawContentBlockDelta::InputJsonDelta { partial_json: frags.last() },
            },
        ).0
    }
}

/// The text of a list of fragments, joined.
pub open spec fn joined(frags: Seq<String>) -> Seq<char>
    decreases frags.len(),
{
    if frags.len() == 0 {
        Seq::empty()
    } else {
        joined(frags.drop_last()) + frags.last()@
    }
}

/// A tool use whose input streams in keeps every fragment, in order, and
/// its block's stop releases one call whose arguments are the JSON of the
/// joined input; the call is then no longer pending.
pub proof fn law_tool_input_accumulates(d: AnthropicView, index: usize, frags: Seq<String>)
    requires
        d.pending.contains_key(index),
    ensures
        feed_input(d, index, frags).pending.contains_key(index),
        feed_input(d, index, frags).pending[index] == (PendingUseView {
            json: d.pending[index].json + joined(frags),
            ..d.pending[index]
        }),
        handle_delta_spec(
            feed_input(d, index, frags),
            RawMessageStreamEvent::RawContentBlockStopEvent { index },
        ).1 == Some(
            ProviderEventView::ToolCall(
                ToolCallView {
                    id: d.pending[index].id,
                    name: d.pending[index].name,
                    args: json_or_null(d.pending[index].json + joined(frags)),
                },
            ),
        ),
        !handle_delta_spec(
            feed_input(d, index, frags),
            RawMessageStreamEvent::RawContentBlockStopEvent { index },
        ).0.pending.contains_key(index),
    decreases frags.len(),
{
    if frags.len() == 0 {
        assert(d.pending[index].json + joined(frags) =~= d.pending[index].json);
    } else {
        law_tool_input_accumulates(d, index, frags.drop_last());
        assert(d.pending[index].json + joined(frags) =~= d.pending[index].json + joined(
            frags.drop_last(),
        ) + frags.last()@);
    }
}

/// A tool use that starts with its input given is released at once, and
/// one with an empty input waits for its input.
pub proof fn law_tool_use_start(d: AnthropicView, index: usize, id: String, input: serde_json::Value, name: String)
    ensures
        json_text(input) == empty_input_text() ==> {
            &&& block_start_spec(d, index, ContentBlock::ToolUseBlock { id, input, name }).1 is None
            &&& block_start_spec(d, index, ContentBlock::ToolUseBlock { id, input, name }).0.pending[index]
                == (PendingUseView { id: id@, name: name@, json: Seq::empty() })
        },
        json_text(input) != empty_input_text() ==> block_start_spec(
            d,
            index,
            ContentBlock::ToolUseBlock { id, input, name },
        ).1 == Some(ProviderEventView::ToolCall(ToolCallView { id: id@, name: name@, args: input })),
{
}

/// A thinking delta hands out exactly its thinking as reasoning, and a text
/// delta exactly its text as content; neither changes the decoder.
pub proof fn law_deltas_keep_their_kind(d: AnthropicView, index: usize, text: String)
    ensures
        handle_delta_spec(
            d,
            RawMessageStreamEvent::RawContentBlockDeltaEvent {
                index,
                delta: RawContentBlockDelta::ThinkingDelta { thinking: text },
            },
        ) == (d, Some(ProviderEventView::ReasoningContent(text@))),
        handle_delta_spec(
            d,
            RawMessageStreamEvent::RawContentBlockDeltaEvent { index, delta: RawContentBlockDelta::TextDelta { text } },
        ) == (d, Some(ProviderEventView::Content(text@))),
{
}

proof fn lemma_start_content(d: AnthropicView, blocks: Seq<ContentBlock>, i: int, t: Seq<char>)
    requires
        start_blocks_spec(d, blocks, i).1 == Some(ProviderEventView::Content(t)),
    ensures
        exists|j: int| 0 <= j < blocks.len() && (#[trigger] blocks[j] matches ContentBlock::TextBlock { text } && text@ == t),
    decreases blocks.len() - i,
{
    if 0 <= i < blocks.len() {
        let (d1, e) = block_start_spec(d, i as usize, blocks[i]);
        if e is Some {
            assert(blocks[i] matches ContentBlock::TextBlock { text } && text@ == t);
        } else {
            lemma_start_content(d1, blocks, i + 1, t);
        }
    }
}

/// Content comes only from text: an event that hands out content is a text
/// delta, the start of a text block, or the start of a message holding a
/// text block, and the content is that text. Thinking never becomes content.
pub proof fn law_content_only_from_text(d: AnthropicView, ev: RawMessageStreamEvent, t: Seq<char>)
    requires
        handle_delta_spec(d, ev).1 == Some(ProviderEventView::Content(t)),
    ensures
        (ev matches RawMessageStreamEvent::RawContentBlockDeltaEvent {
            delta: RawContentBlockDelta::TextDelta { text },
            ..
        } && text@ == t) || (ev matches RawMessageStreamEvent::RawContentBlockStartEvent {
            block: ContentBlock::TextBlock { text },
            ..
        } && text@ == t) || (ev matches RawMessageStreamEvent::RawMessageStartEvent { message } && exists|j: int|
            0 <= j < message.content@.len() && (#[trigger] message.content@[j] matches ContentBlock::TextBlock {
                text,
            } && text@ == t)),
{
    match ev {
        RawMessageStreamEvent::RawMessageStartEvent { message } => {
            lemma_start_content(AnthropicView { usage: Some(message.usage), ..d }, message.content@, 0, t);
        },
        _ => {},
    }
}

} // verus!
