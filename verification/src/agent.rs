//! The decisions of the agent's run loop. The loop itself (provider calls,
//! tool calls, middleware hooks and the event stream) runs outside and
//! drives a [`TurnRecorder`], which holds what the turn has produced and
//! decides what is asked of the provider next.
use vstd::prelude::*;

use crate::convert::{block_calls, calls_view};
use crate::message::{
    copy_message_type, copy_tool_call, copy_tool_result, messages_view, AssistantContentBlock,
    AssistantMessage, Message, MessageContent, MessageType, MessageTypeView, MessageView,
    StreamEventData, ToolCall, ToolCallResult, ToolCallResultInner, ToolCallView, ToolError,
    ToolSpec, Turn, TurnView, Usage,
};
use crate::text::push_str;

verus! {

broadcast use vstd::string::group_string_axioms;

/// What is asked of a provider: the conversation, the system prompt and the
/// tools on offer.
#[derive(Debug, Clone)]
pub struct GenerateRequest {
    pub messages: Vec<MessageType>,
    pub system_prompt: Option<String>,
    pub tool_specs: Vec<ToolSpec>,
}

impl GenerateRequest {
    /// The tools on offer.
    pub fn tool_specs(&self) -> (r: &Vec<ToolSpec>)
        ensures
            r@ == self.tool_specs@,
    {
        &self.tool_specs
    }
}

/// What a provider answered to one request.
#[derive(Debug)]
pub struct ProviderResponse {
    pub message: AssistantMessage,
    pub usage: Usage,
}

/// The messages of one generation round that the middleware is shown.
#[derive(Debug, Clone)]
pub struct GenerateResponse {
    pub message: Vec<MessageType>,
}

/// The contents of a list of message payloads.
pub open spec fn payloads_view(s: Seq<MessageType>) -> Seq<MessageTypeView> {
    s.map_values(|m: MessageType| m@)
}

impl GenerateResponse {
    /// A response with no messages.
    pub fn new() -> (r: Self)
        ensures
            r.message@.len() == 0,
    {
        GenerateResponse { message: Vec::new() }
    }

    /// Adds the assistant message of a provider's answer.
    pub fn merge(&mut self, response: ProviderResponse)
        ensures
            payloads_view(final(self).message@) == payloads_view(old(self).message@).push(
                MessageTypeView::Assistant(response.message.blocks@),
            ),
    {
        let ghost before = self.message@;
        self.message.push(MessageType::Assistant(response.message));
        assert(payloads_view(self.message@) =~= payloads_view(before).push(
            MessageTypeView::Assistant(response.message.blocks@),
        ));
    }

    /// Adds a tool result carried by a stream event; other events add
    /// nothing.
    pub fn merge_stream_event(&mut self, event: StreamEventData)
        ensures
            match event {
                StreamEventData::ToolCallResult(r) => payloads_view(final(self).message@)
                    == payloads_view(old(self).message@).push(MessageTypeView::ToolCallResult(r)),
                _ => final(self).message@ == old(self).message@,
            },
    {
        match event {
            StreamEventData::ToolCallResult(result) => {
                let ghost before = self.message@;
                let ghost r = result;
                self.message.push(MessageType::ToolCallResult(result));
                assert(payloads_view(self.message@) =~= payloads_view(before).push(
                    MessageTypeView::ToolCallResult(r),
                ));
            },
            _ => {},
        }
    }
}

/// What the middleware decides after a generation round.
#[derive(Debug, Clone)]
pub enum AgentControlFlow {
    /// The round's output stands; the turn is over.
    Output,
    /// Generate again with this message added.
    GenerateWith(MessageContent),
}

/// The messages of a list of turns, in order.
pub open spec fn turns_messages(ts: Seq<Turn>) -> Seq<MessageView>
    decreases ts.len(),
{
    if ts.len() == 0 {
        Seq::empty()
    } else {
        turns_messages(ts.drop_last()) + ts.last()@.messages
    }
}

/// The state of a turn in progress.
pub struct RecorderView {
    /// The history that the turn continues.
    pub old: Seq<MessageView>,
    /// What this turn has produced, starting with the user's input.
    pub current: Seq<MessageView>,
    /// The usage of every generation of the turn, summed.
    pub usage: Usage,
    /// The system prompt that the turn starts from.
    pub base_prompt: Seq<char>,
}

/// The system prompt of a turn in `working_directory`.
pub open spec fn base_prompt_spec(working_directory: Seq<char>) -> Seq<char> {
    "Working directory: "@ + working_directory + "\n"@
}

/// The payloads that a request carries: the history, then the turn.
pub open spec fn request_payloads(r: RecorderView) -> Seq<MessageTypeView> {
    (r.old + r.current).map_values(|m: MessageView| m.data)
}

/// The usage of two generations together: token counts add up, and a cache
/// hit of either counts.
pub open spec fn add_usage(a: Usage, b: Usage) -> Usage {
    Usage {
        total_input: (a.total_input + b.total_input) as usize,
        total_output: (a.total_output + b.total_output) as usize,
        cache_hit: a.cache_hit || b.cache_hit,
        cache_miss: (a.cache_miss + b.cache_miss) as usize,
    }
}

/// Whether two usages can be added without exceeding the machine's range.
pub open spec fn usage_fits(a: Usage, b: Usage) -> bool {
    &&& a.total_input + b.total_input <= usize::MAX
    &&& a.total_output + b.total_output <= usize::MAX
    &&& a.cache_miss + b.cache_miss <= usize::MAX
}

/// Recording a provider's answer: its assistant message, with the
/// generation's usage, is appended and the usage added to the turn's.
pub open spec fn response_step(r: RecorderView, blocks: Seq<AssistantContentBlock>, usage: Usage, at: i64) -> RecorderView {
    RecorderView {
        current: r.current.push(
            MessageView { data: MessageTypeView::Assistant(blocks), usage: Some(usage), created_at: at },
        ),
        usage: add_usage(r.usage, usage),
        ..r
    }
}

/// Recording the outcome of a tool call.
pub open spec fn tool_result_step(r: RecorderView, result: ToolCallResult, at: i64) -> RecorderView {
    RecorderView {
        current: r.current.push(
            MessageView { data: MessageTypeView::ToolCallResult(result), usage: None, created_at: at },
        ),
        ..r
    }
}

/// Applying the middleware's decision.
pub open spec fn control_step(r: RecorderView, flow: AgentControlFlow, at: i64) -> RecorderView {
    match flow {
        AgentControlFlow::Output => r,
        AgentControlFlow::GenerateWith(c) => RecorderView {
            current: r.current.push(
                MessageView { data: MessageTypeView::MiddlewareMessage(c), usage: None, created_at: at },
            ),
            ..r
        },
    }
}

/// The result recorded for a tool call that names no registered tool.
pub open spec fn not_found_error() -> Seq<char> {
    "Tool not found"@
}

/// The text of a tool's failure.
pub open spec fn tool_error_text(e: ToolError) -> Seq<char> {
    match e {
        ToolError::InvalidParameters(m) => "Invalid parameters: "@ + m@,
        ToolError::ExecutionError(m) => "Execution error: "@ + m@,
    }
}

impl ToolError {
    /// The human-readable message of this error.
    pub fn message(&self) -> (r: String)
        ensures
            r@ == tool_error_text(*self),
    {
        let mut s = String::new();
        match self {
            ToolError::InvalidParameters(m) => {
                push_str(&mut s, "Invalid parameters: ");
                push_str(&mut s, m.as_str());
            },
            ToolError::ExecutionError(m) => {
                push_str(&mut s, "Execution error: ");
                push_str(&mut s, m.as_str());
            },
        }
        s
    }
}

/// The outcome of a tool call, from what the tool gave back: its value, or
/// the text of its failure.
pub fn tool_outcome(call: &ToolCall, outcome: Result<serde_json::Value, ToolError>) -> (r:
    ToolCallResult)
    ensures
        r.id@ == call.id@,
        match outcome {
            Ok(v) => r.result == (ToolCallResultInner::Success { value: v }),
            Err(e) => r.result is Error && r.result->error@ == tool_error_text(e),
        },
{
    let result = match outcome {
        Ok(value) => ToolCallResultInner::Success { value },
        Err(e) => ToolCallResultInner::Error { error: e.message() },
    };
    ToolCallResult { id: call.id.clone(), result }
}

/// The outcome of a tool call that names no registered tool.
pub fn tool_not_found(call: &ToolCall) -> (r: ToolCallResult)
    ensures
        r.id@ == call.id@,
        r.result is Error && r.result->error@ == not_found_error(),
{
    let mut e = String::new();
    push_str(&mut e, "Tool not found");
    ToolCallResult { id: call.id.clone(), result: ToolCallResultInner::Error { error: e } }
}

/// What one turn of the agent has produced so far.
#[derive(Debug)]
pub struct TurnRecorder {
    old_messages: Vec<Message>,
    current: Vec<Message>,
    usage: Usage,
    base_system_prompt: String,
}

impl View for TurnRecorder {
    type V = RecorderView;

    closed spec fn view(&self) -> RecorderView {
        RecorderView {
            old: messages_view(self.old_messages@),
            current: messages_view(self.current@),
            usage: self.usage,
            base_prompt: self.base_system_prompt@,
        }
    }
}

impl TurnRecorder {
    /// Starts a turn in `working_directory` on `input`, continuing the
    /// history of `old_turns`: the turn's first message is the user's input,
    /// made at `now` (milliseconds since the Unix epoch), and no tokens are
    /// used yet.
    pub fn start(working_directory: &str, input: Vec<MessageContent>, old_turns: Vec<Turn>, now: i64) -> (r:
        Self)
        ensures
            r@.old == turns_messages(old_turns@),
            r@.current == seq![MessageView { data: MessageTypeView::User(input@), usage: None, created_at: now }],
            r@.usage == Usage::spec_zero(),
            r@.base_prompt == base_prompt_spec(working_directory@),
    {
        let mut old_messages: Vec<Message> = Vec::new();
        let ghost ts = old_turns@;
        for t in it: old_turns
            invariant
                it.seq() == ts,
                messages_view(old_messages@) == turns_messages(ts.take(it.index() as int)),
        {
            let ghost before = old_messages@;
            let ghost tv = t@;
            let mut ms = t.messages;
            old_messages.append(&mut ms);
            proof {
                assert(ts.take(it.index() + 1).drop_last() =~= ts.take(it.index() as int));
                assert(ts.take(it.index() + 1).last() == t);
                assert(messages_view(old_messages@) =~= messages_view(before) + tv.messages);
            }
        }
        proof {
            assert(ts.take(ts.len() as int) =~= ts);
        }
        let ghost iv = input@;
        let mut current: Vec<Message> = Vec::new();
        current.push(Message { data: MessageType::User(input), usage: None, created_at: now });
        let mut base_system_prompt = String::new();
        push_str(&mut base_system_prompt, "Working directory: ");
        push_str(&mut base_system_prompt, working_directory);
        push_str(&mut base_system_prompt, "\n");
        let r = TurnRecorder { old_messages, current, usage: Usage::zero(), base_system_prompt };
        proof {
            assert(messages_view(r.current@) =~= seq![
                MessageView { data: MessageTypeView::User(iv), usage: None, created_at: now },
            ]);
        }
        r
    }

    /// The usage of the turn so far.
    pub fn usage(&self) -> (r: Usage)
        ensures
            r == self@.usage,
    {
        self.usage
    }

    /// The payloads of the history and of the turn so far, in order.
    pub fn request_messages(&self) -> (r: Vec<MessageType>)
        ensures
            payloads_view(r@) == request_payloads(self@),
    {
        let mut r: Vec<MessageType> = Vec::new();
        let n = self.old_messages.len();
        for i in 0..n
            invariant
                n == self.old_messages@.len(),
                r@.len() == i,
                forall|j: int| 0 <= j < i ==> (#[trigger] r@[j])@ == self.old_messages@[j].data@,
        {
            r.push(copy_message_type(&self.old_messages[i].data));
        }
        for i in 0..self.current.len()
            invariant
                n == self.old_messages@.len(),
                r@.len() == n + i,
                forall|j: int| 0 <= j < n ==> (#[trigger] r@[j])@ == self.old_messages@[j].data@,
                forall|j: int| 0 <= j < i ==> (#[trigger] r@[n + j])@ == self.current@[j].data@,
        {
            r.push(copy_message_type(&self.current[i].data));
        }
        proof {
            let all = messages_view(self.old_messages@) + messages_view(self.current@);
            assert(payloads_view(r@) =~= all.map_values(|m: MessageView| m.data)) by {
                assert forall|j: int| 0 <= j < r@.len() implies payloads_view(r@)[j] == all.map_values(
                    |m: MessageView| m.data,
                )[j] by {
                    if j >= n {
                        assert(r@[n + (j - n)] == r@[j]);
                    }
                }
            }
        }
        r
    }

    /// The first request of the turn, and the request after the middleware
    /// asks for another generation: the conversation so far under the
    /// turn's own system prompt, with no tools yet.
    pub fn base_request(&self) -> (r: GenerateRequest)
        ensures
            payloads_view(r.messages@) == request_payloads(self@),
            r.system_prompt is Some && r.system_prompt->0@ == self@.base_prompt,
            r.tool_specs@.len() == 0,
    {
        GenerateRequest {
            messages: self.request_messages(),
            system_prompt: Some(self.base_system_prompt.clone()),
            tool_specs: Vec::new(),
        }
    }

    /// The request after a round of tool calls: the conversation so far,
    /// keeping the system prompt and tools that the middleware set for the
    /// round.
    pub fn follow_up_request(&self, system_prompt: Option<String>, tool_specs: Vec<ToolSpec>) -> (r:
        GenerateRequest)
        ensures
            payloads_view(r.messages@) == request_payloads(self@),
            r.system_prompt == system_prompt,
            r.tool_specs@ == tool_specs@,
    {
        GenerateRequest { messages: self.request_messages(), system_prompt, tool_specs }
    }

    /// Records a provider's answer, made at `now`: its assistant message,
    /// carrying the generation's usage, is appended and the usage added to the turn's.
    /// Gives back the tool calls of the answer, in order; when there are
    /// none, the round is over.
    pub fn record_response(&mut self, response: ProviderResponse, now: i64) -> (r: Vec<ToolCall>)
        requires
            usage_fits(old(self)@.usage, response.usage),
        ensures
            final(self)@ == response_step(old(self)@, response.message.blocks@, response.usage, now),
            calls_view(r@) == block_calls(response.message.blocks@),
    {
        let u = response.usage;
        self.usage = Usage {
            total_input: self.usage.total_input + u.total_input,
            total_output: self.usage.total_output + u.total_output,
            cache_hit: self.usage.cache_hit || u.cache_hit,
            cache_miss: self.usage.cache_miss + u.cache_miss,
        };
        let bs = &response.message.blocks;
        let mut calls: Vec<ToolCall> = Vec::new();
        for i in 0..bs.len()
            invariant
                calls_view(calls@) == block_calls(bs@.take(i as int)),
        {
            proof {
                assert(bs@.take(i + 1).drop_last() =~= bs@.take(i as int));
                assert(bs@.take(i + 1).last() == bs@[i as int]);
            }
            match &bs[i] {
                AssistantContentBlock::ToolCall(tc) => {
                    let ghost before = calls@;
                    calls.push(copy_tool_call(tc));
                    assert(calls_view(calls@) =~= calls_view(before).push(tc@));
                },
                _ => {},
            }
        }
        assert(bs@.take(bs@.len() as int) =~= bs@);
        let ghost cur = self.current@;
        let ghost blocks = response.message.blocks@;
        self.current.push(Message { data: MessageType::Assistant(response.message), usage: Some(u), created_at: now });
        assert(messages_view(self.current@) =~= messages_view(cur).push(
            MessageView { data: MessageTypeView::Assistant(blocks), usage: Some(u), created_at: now },
        ));
        calls
    }

    /// Records the outcome of one tool call of the round, made at `now`.
    pub fn record_tool_result(&mut self, result: ToolCallResult, now: i64)
        ensures
            final(self)@ == tool_result_step(old(self)@, result, now),
    {
        let ghost cur = self.current@;
        let ghost r = result;
        self.current.push(Message { data: MessageType::ToolCallResult(result), usage: None, created_at: now });
        assert(messages_view(self.current@) =~= messages_view(cur).push(
            MessageView { data: MessageTypeView::ToolCallResult(r), usage: None, created_at: now },
        ));
    }

    /// Applies the middleware's decision after a round: the turn is over
    /// (`None`), or the given message, made at `now`, is appended and the
    /// next request is
    /// the conversation so far under the turn's own system prompt.
    pub fn apply_control_flow(&mut self, flow: AgentControlFlow, now: i64) -> (r: Option<GenerateRequest>)
        ensures
            final(self)@ == control_step(old(self)@, flow, now),
            match flow {
                AgentControlFlow::Output => r is None,
                AgentControlFlow::GenerateWith(c) => {
                    &&& r is Some
                    &&& payloads_view(r->0.messages@) == request_payloads(final(self)@)
                    &&& r->0.system_prompt is Some
                    &&& r->0.system_prompt->0@ == old(self)@.base_prompt
                    &&& r->0.tool_specs@.len() == 0
                },
            },
    {
        match flow {
            AgentControlFlow::Output => None,
            AgentControlFlow::GenerateWith(content) => {
                let ghost cur = self.current@;
                let ghost c = content;
                self.current.push(Message { data: MessageType::MiddlewareMessage(content), usage: None, created_at: now });
                assert(messages_view(self.current@) =~= messages_view(cur).push(
                    MessageView { data: MessageTypeView::MiddlewareMessage(c), usage: None, created_at: now },
                ));
                Some(self.base_request())
            },
        }
    }

    /// The completed turn: every message it produced, its usage, finished.
    pub fn finish(self) -> (r: Turn)
        ensures
            r@ == (TurnView { messages: self@.current, usage: self@.usage, finished: true }),
    {
        Turn { messages: self.current, usage: self.usage, finished: true }
    }

    /// The turn cut short by an error: what it produced up to the failure,
    /// unfinished.
    pub fn fail(self) -> (r: Turn)
        ensures
            r@ == (TurnView { messages: self@.current, usage: self@.usage, finished: false }),
    {
        Turn { messages: self.current, usage: self.usage, finished: false }
    }
}


/// What the run loop records during a turn.
pub enum RecorderEvent {
    Response(Seq<AssistantContentBlock>, Usage, i64),
    ToolResult(ToolCallResult, i64),
    Control(AgentControlFlow, i64),
}

/// One recorded event.
pub open spec fn recorder_step(r: RecorderView, e: RecorderEvent) -> RecorderView {
    match e {
        RecorderEvent::Response(b, u, at) => response_step(r, b, u, at),
        RecorderEvent::ToolResult(t, at) => tool_result_step(r, t, at),
        RecorderEvent::Control(f, at) => control_step(r, f, at),
    }
}

/// A sequence of recorded events.
pub open spec fn recorder_run(r: RecorderView, es: Seq<RecorderEvent>) -> RecorderView
    decreases es.len(),
{
    if es.len() == 0 {
        r
    } else {
        recorder_step(recorder_run(r, es.drop_last()), es.last())
    }
}

/// The input tokens of every generation among `es`, summed.
pub open spec fn input_tokens(es: Seq<RecorderEvent>) -> int
    decreases es.len(),
{
    if es.len() == 0 {
        0
    } else {
        input_tokens(es.drop_last()) + match es.last() {
            RecorderEvent::Response(_, u, _) => u.total_input as int,
            _ => 0,
        }
    }
}

/// The output tokens of every generation among `es`, summed.
pub open spec fn output_tokens(es: Seq<RecorderEvent>) -> int
    decreases es.len(),
{
    if es.len() == 0 {
        0
    } else {
        output_tokens(es.drop_last()) + match es.last() {
            RecorderEvent::Response(_, u, _) => u.total_output as int,
            _ => 0,
        }
    }
}

/// Whether the sums of `es` stay within the machine's range from `u` on.
pub open spec fn run_fits(u: Usage, es: Seq<RecorderEvent>) -> bool
    decreases es.len(),
{
    if es.len() == 0 {
        true
    } else {
        run_fits(u, es.drop_last()) && match es.last() {
            RecorderEvent::Response(_, v, _) => usage_fits(recorder_run(
                RecorderView { old: Seq::empty(), current: Seq::empty(), usage: u, base_prompt: Seq::empty() },
                es.drop_last(),
            ).usage, v),
            _ => true,
        }
    }
}

/// A turn only grows: whatever is recorded, the history, the system prompt
/// and everything recorded before (the user's input first) stay as they
/// were, and the turn's token counts are the sums over its generations.
pub proof fn law_turn_accumulates(r: RecorderView, es: Seq<RecorderEvent>)
    requires
        run_fits(r.usage, es),
    ensures
        recorder_run(r, es).old == r.old,
        recorder_run(r, es).base_prompt == r.base_prompt,
        recorder_run(r, es).current.len() >= r.current.len(),
        recorder_run(r, es).current.take(r.current.len() as int) == r.current,
        recorder_run(r, es).usage.total_input == r.usage.total_input + input_tokens(es),
        recorder_run(r, es).usage.total_output == r.usage.total_output + output_tokens(es),
    decreases es.len(),
{
    if es.len() > 0 {
        let z = RecorderView { old: Seq::empty(), current: Seq::empty(), usage: r.usage, base_prompt: Seq::empty() };
        lemma_usage_independent(r, z, es.drop_last());
        law_turn_accumulates(r, es.drop_last());
        let prev = recorder_run(r, es.drop_last());
        assert(recorder_run(r, es).current.take(r.current.len() as int) =~= prev.current.take(
            r.current.len() as int,
        ));
    }
}

/// The recorder at the start of a turn on `input`, made at `now`,
/// continuing `old_turns`, in working directory `working_directory`.
pub open spec fn start_view(
    working_directory: Seq<char>,
    input: Seq<MessageContent>,
    old_turns: Seq<Turn>,
    now: i64,
) -> RecorderView {
    RecorderView {
        old: turns_messages(old_turns),
        current: seq![MessageView { data: MessageTypeView::User(input), usage: None, created_at: now }],
        usage: Usage::spec_zero(),
        base_prompt: base_prompt_spec(working_directory),
    }
}

/// Whatever a turn records, the turn it gives (finished or cut short)
/// begins with the user's input, holds none of the history it continues,
/// keeps the history and the system prompt apart as they were, and counts
/// the tokens of its generations.
pub proof fn law_turn_keeps_its_input(
    working_directory: Seq<char>,
    input: Seq<MessageContent>,
    old_turns: Seq<Turn>,
    now: i64,
    es: Seq<RecorderEvent>,
)
    requires
        run_fits(Usage::spec_zero(), es),
    ensures
        ({
            let r = recorder_run(start_view(working_directory, input, old_turns, now), es);
            &&& r.current.len() >= 1
            &&& r.current[0] == (MessageView { data: MessageTypeView::User(input), usage: None, created_at: now })
            &&& r.old == turns_messages(old_turns)
            &&& r.base_prompt == base_prompt_spec(working_directory)
            &&& r.usage.total_input == input_tokens(es)
            &&& r.usage.total_output == output_tokens(es)
        }),
{
    let r0 = start_view(working_directory, input, old_turns, now);
    law_turn_accumulates(r0, es);
    let r = recorder_run(r0, es);
    assert(r.current.take(1)[0] == r.current[0]);
}

proof fn lemma_usage_independent(a: RecorderView, b: RecorderView, es: Seq<RecorderEvent>)
    requires
        a.usage == b.usage,
    ensures
        recorder_run(a, es).usage == recorder_run(b, es).usage,
    decreases es.len(),
{
    if es.len() > 0 {
        lemma_usage_independent(a, b, es.drop_last());
    }
}

} // verus!
