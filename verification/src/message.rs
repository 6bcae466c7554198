//! The conversation model shared by the run loop, the stream decoders and the
//! subagent registry: messages, tool calls, usage and turns.
use vstd::prelude::*;

verus! {

broadcast use vstd::string::group_string_axioms;

/// The outside JSON value type: tool arguments and tool results are JSON.
#[verifier::external_type_specification]
#[verifier::external_body]
pub struct ExJsonValue(serde_json::Value);

/// `serde_json::Value::clone`: the derived clone of a JSON tree, which has no
/// interior mutability, gives back an equal tree.
pub assume_specification[ <serde_json::Value as Clone>::clone ](v: &serde_json::Value) -> (r:
    serde_json::Value)
    ensures
        r == *v,
;

/// The JSON value that `serde_json::from_str` reads from `text`, or JSON
/// `null` where the text is not JSON.
pub uninterp spec fn json_or_null(text: Seq<char>) -> serde_json::Value;

/// Parses `text` as JSON with `serde_json::from_str`, giving JSON `null`
/// where it fails. The contract names the result, which is the parsed
/// value wherever the text is JSON, and says no more of it.
#[verifier::external_body]
pub(crate) fn parse_json_or_null(text: &str) -> (r: serde_json::Value)
    ensures
        r == json_or_null(text@),
        json_parse(text@) is Some ==> r == json_parse(text@)->0,
{
    serde_json::from_str(text).unwrap_or(serde_json::Value::Null)
}

/// The JSON value that `serde_json::from_str` reads from `text`, where it
/// is JSON.
pub uninterp spec fn json_parse(text: Seq<char>) -> Option<serde_json::Value>;

/// Parses `text` as JSON with `serde_json::from_str`. The contract names the
/// result and says no more of it.
#[verifier::external_body]
pub(crate) fn parse_json(text: &str) -> (r: Option<serde_json::Value>)
    ensures
        r == json_parse(text@),
{
    serde_json::from_str(text).ok()
}

/// The compact JSON text of `v`, as `serde_json::Value`'s `Display` writes it.
pub uninterp spec fn json_text(v: serde_json::Value) -> Seq<char>;

/// Writes `v` as compact JSON text with `ToString::to_string`. The contract
/// names the result and says no more of it.
#[verifier::external_body]
pub(crate) fn json_to_string(v: &serde_json::Value) -> (r: String)
    ensures
        r@ == json_text(*v),
{
    v.to_string()
}

/// The JSON text that `serde_json::to_string` writes for `v`, or the empty
/// text where it fails.
pub uninterp spec fn json_serialized(v: serde_json::Value) -> Seq<char>;

/// Serializes `v` with `serde_json::to_string`, giving the empty text where
/// it fails. The contract names the result and says no more of it.
#[verifier::external_body]
pub(crate) fn serialize_json(v: &serde_json::Value) -> (r: String)
    ensures
        r@ == json_serialized(*v),
{
    serde_json::to_string(v).unwrap_or_default()
}

/// The member at `key` of a JSON object, as `Value::get` reads it.
pub uninterp spec fn json_get_at(v: serde_json::Value, key: Seq<char>) -> Option<serde_json::Value>;

/// Reads the member at `key` of a JSON object (`Value::get` with a string
/// index); anything but an object has none. The contract names the result
/// and says no more of it.
#[verifier::external_body]
pub(crate) fn json_get<'a>(v: &'a serde_json::Value, key: &str) -> (r: Option<&'a serde_json::Value>)
    ensures
        match r {
            Some(x) => json_get_at(*v, key@) == Some(*x),
            None => json_get_at(*v, key@) is None,
        },
{
    v.get(key)
}

/// The string that a JSON value is, as `Value::as_str` reads it.
pub uninterp spec fn json_str_of(v: serde_json::Value) -> Option<Seq<char>>;

/// Reads a JSON value as a string (`Value::as_str`). The contract names the
/// result and says no more of it.
#[verifier::external_body]
pub(crate) fn json_as_str<'a>(v: &'a serde_json::Value) -> (r: Option<&'a str>)
    ensures
        match r {
            Some(s) => json_str_of(*v) == Some(s@),
            None => json_str_of(*v) is None,
        },
{
    v.as_str()
}

/// The unsigned integer that a JSON value is, as `Value::as_u64` reads it.
pub uninterp spec fn json_as_u64(v: serde_json::Value) -> Option<u64>;

/// Reads a JSON value as an unsigned integer (`Value::as_u64`). The
/// contract names the result and says no more of it.
#[verifier::external_body]
pub(crate) fn json_u64_value(v: &serde_json::Value) -> (r: Option<u64>)
    ensures
        r == json_as_u64(*v),
{
    v.as_u64()
}

/// The boolean that a JSON value is, as `Value::as_bool` reads it.
pub uninterp spec fn json_bool_of(v: serde_json::Value) -> Option<bool>;

/// Reads a JSON value as a boolean (`Value::as_bool`). The contract names
/// the result and says no more of it.
#[verifier::external_body]
pub(crate) fn json_as_bool(v: &serde_json::Value) -> (r: Option<bool>)
    ensures
        r == json_bool_of(*v),
{
    v.as_bool()
}

/// The elements of a JSON array, as `Value::as_array` reads them.
pub uninterp spec fn json_array_of(v: serde_json::Value) -> Option<Seq<serde_json::Value>>;

/// Reads a JSON value as an array (`Value::as_array`). The contract names
/// the result and says no more of it.
#[verifier::external_body]
pub(crate) fn json_as_array<'a>(v: &'a serde_json::Value) -> (r: Option<&'a Vec<serde_json::Value>>)
    ensures
        match r {
            Some(a) => json_array_of(*v) == Some(a@),
            None => json_array_of(*v) is None,
        },
{
    v.as_array()
}

/// The string at `key` of a JSON object.
pub open spec fn json_str_at(v: serde_json::Value, key: Seq<char>) -> Option<Seq<char>> {
    match json_get_at(v, key) {
        Some(x) => json_str_of(x),
        None => None,
    }
}

/// The unsigned integer at `key` of a JSON object.
pub open spec fn json_u64_at(v: serde_json::Value, key: Seq<char>) -> Option<u64> {
    match json_get_at(v, key) {
        Some(x) => json_as_u64(x),
        None => None,
    }
}

/// The boolean at `key` of a JSON object.
pub open spec fn json_bool_at(v: serde_json::Value, key: Seq<char>) -> Option<bool> {
    match json_get_at(v, key) {
        Some(x) => json_bool_of(x),
        None => None,
    }
}

/// The elements of the array at `key` of a JSON object.
pub open spec fn json_array_at(v: serde_json::Value, key: Seq<char>) -> Option<Seq<serde_json::Value>> {
    match json_get_at(v, key) {
        Some(x) => json_array_of(x),
        None => None,
    }
}

/// Reads the string at `key` of a JSON object.
pub(crate) fn json_str_field(v: &serde_json::Value, key: &str) -> (r: Option<String>)
    ensures
        match r {
            Some(s) => json_str_at(*v, key@) == Some(s@),
            None => json_str_at(*v, key@) is None,
        },
{
    match json_get(v, key) {
        Some(x) => match json_as_str(x) {
            Some(s) => Some(crate::text::copy_str(s)),
            None => None,
        },
        None => None,
    }
}

/// Reads the unsigned integer at `key` of a JSON object.
pub(crate) fn json_u64_field(v: &serde_json::Value, key: &str) -> (r: Option<u64>)
    ensures
        r == json_u64_at(*v, key@),
{
    match json_get(v, key) {
        Some(x) => json_u64_value(x),
        None => None,
    }
}

/// Reads the boolean at `key` of a JSON object.
pub(crate) fn json_bool_field(v: &serde_json::Value, key: &str) -> (r: Option<bool>)
    ensures
        r == json_bool_at(*v, key@),
{
    match json_get(v, key) {
        Some(x) => json_as_bool(x),
        None => None,
    }
}

/// Reads the elements of the array at `key` of a JSON object, copied.
pub(crate) fn json_array_field(v: &serde_json::Value, key: &str) -> (r: Option<Vec<serde_json::Value>>)
    ensures
        match r {
            Some(a) => json_array_at(*v, key@) == Some(a@),
            None => json_array_at(*v, key@) is None,
        },
{
    let x = match json_get(v, key) {
        Some(x) => x,
        None => return None,
    };
    let a = match json_as_array(x) {
        Some(a) => a,
        None => return None,
    };
    let mut out: Vec<serde_json::Value> = Vec::new();
    for i in 0..a.len()
        invariant
            out@ == a@.take(i as int),
    {
        out.push(a[i].clone());
        assert(out@ =~= a@.take(i + 1));
    }
    assert(a@.take(a@.len() as int) =~= a@);
    Some(out)
}

/// Token usage of one or more generations.
#[derive(Debug, Clone, Copy)]
pub struct Usage {
    pub total_input: usize,
    pub total_output: usize,
    pub cache_hit: bool,
    pub cache_miss: usize,
}

impl Usage {
    /// No tokens at all.
    pub open spec fn spec_zero() -> Usage {
        Usage { total_input: 0, total_output: 0, cache_hit: false, cache_miss: 0 }
    }

    /// No tokens at all.
    pub fn zero() -> (r: Usage)
        ensures
            r == Usage::spec_zero(),
    {
        Usage { total_input: 0, total_output: 0, cache_hit: false, cache_miss: 0 }
    }
}

impl Default for Usage {
    fn default() -> (r: Usage)
        ensures
            r == (Usage { total_input: 0, total_output: 0, cache_hit: false, cache_miss: 0 }),
    {
        Usage::zero()
    }
}

/// Why a generation stopped.
#[derive(Debug, Clone)]
pub enum StopReason {
    Stop,
    Length,
    MaxTokens,
    Refusal,
    Error(String),
}

/// A call of a tool that the model asked for.
#[derive(Debug, Clone)]
pub struct ToolCall {
    pub id: String,
    pub name: String,
    pub args: serde_json::Value,
}

/// A piece of user or middleware input.
#[derive(Debug, Clone)]
pub enum MessageContent {
    Text { content: String },
}

/// One block of an assistant message.
#[derive(Debug, Clone)]
pub enum AssistantContentBlock {
    Text { content: String, reasoning_content: Option<String> },
    ToolCall(ToolCall),
}

/// What the model answered in one generation.
#[derive(Debug, Clone)]
pub struct AssistantMessage {
    pub blocks: Vec<AssistantContentBlock>,
}

/// The outcome of one tool call.
#[derive(Debug, Clone)]
pub enum ToolCallResultInner {
    Success { value: serde_json::Value },
    Error { error: String },
}

/// The outcome of one tool call, tied to the call by its id.
#[derive(Debug, Clone)]
pub struct ToolCallResult {
    pub id: String,
    pub result: ToolCallResultInner,
}

/// What a message carries.
#[derive(Debug, Clone)]
pub enum MessageType {
    User(Vec<MessageContent>),
    Assistant(AssistantMessage),
    MiddlewareMessage(MessageContent),
    ToolCallResult(ToolCallResult),
}

/// One message of a conversation, with the usage of the generation that
/// produced it where a generation did, and when it was made.
#[derive(Debug, Clone)]
pub struct Message {
    pub data: MessageType,
    pub usage: Option<Usage>,
    /// When the message was made, in milliseconds since the Unix epoch.
    pub created_at: i64,
}

/// The messages that one run of the agent produced, with their total usage.
#[derive(Debug, Clone)]
pub struct Turn {
    pub messages: Vec<Message>,
    pub usage: Usage,
    pub finished: bool,
}

/// Who speaks a message.
#[derive(Debug, Clone, Copy, PartialEq, Eq, Structural)]
pub enum Role {
    User,
    Assistant,
}

/// What opens a message on the stream.
#[derive(Debug, Clone, Copy, PartialEq, Eq, Structural)]
pub struct MessageMetadata {
    pub role: Role,
}

/// One event of a provider's stream, as the decoders produce it.
#[derive(Debug, Clone)]
pub enum ProviderEvent {
    MessageStart,
    MessageEnd(StopReason),
    Content(String),
    ReasoningContent(String),
    ToolCall(ToolCall),
}

/// The mathematical content of a [`StopReason`].
pub enum StopReasonView {
    Stop,
    Length,
    MaxTokens,
    Refusal,
    Error(Seq<char>),
}

impl View for StopReason {
    type V = StopReasonView;

    open spec fn view(&self) -> StopReasonView {
        match self {
            StopReason::Stop => StopReasonView::Stop,
            StopReason::Length => StopReasonView::Length,
            StopReason::MaxTokens => StopReasonView::MaxTokens,
            StopReason::Refusal => StopReasonView::Refusal,
            StopReason::Error(e) => StopReasonView::Error(e@),
        }
    }
}

/// The mathematical content of a [`ToolCall`].
pub struct ToolCallView {
    pub id: Seq<char>,
    pub name: Seq<char>,
    pub args: serde_json::Value,
}

impl View for ToolCall {
    type V = ToolCallView;

    open spec fn view(&self) -> ToolCallView {
        ToolCallView { id: self.id@, name: self.name@, args: self.args }
    }
}

/// The mathematical content of a [`ProviderEvent`].
pub enum ProviderEventView {
    MessageStart,
    MessageEnd(StopReasonView),
    Content(Seq<char>),
    ReasoningContent(Seq<char>),
    ToolCall(ToolCallView),
}

impl View for ProviderEvent {
    type V = ProviderEventView;

    open spec fn view(&self) -> ProviderEventView {
        match self {
            ProviderEvent::MessageStart => ProviderEventView::MessageStart,
            ProviderEvent::MessageEnd(r) => ProviderEventView::MessageEnd(r@),
            ProviderEvent::Content(t) => ProviderEventView::Content(t@),
            ProviderEvent::ReasoningContent(t) => ProviderEventView::ReasoningContent(t@),
            ProviderEvent::ToolCall(c) => ProviderEventView::ToolCall(c@),
        }
    }
}

/// The content of an optional event.
pub open spec fn opt_event(e: Option<ProviderEvent>) -> Option<ProviderEventView> {
    match e {
        Some(x) => Some(x@),
        None => None,
    }
}

/// One event of the agent's stream to its client.
#[derive(Debug, Clone)]
pub enum StreamEventData {
    MessageStart(MessageMetadata),
    MessageEnd(StopReason),
    Content(String),
    ReasoningContent(String),
    ToolCall(ToolCall),
    ToolCallResult(ToolCallResult),
    TurnEnd,
}

/// What a tool offers to the model: its name, what it does, and the JSON
/// schema of its parameters.
#[derive(Debug, Clone)]
pub struct ToolSpec {
    pub name: String,
    pub description: String,
    pub parameter_schema: serde_json::Value,
}

/// Why a tool refused or failed a call.
#[derive(Debug, Clone)]
pub enum ToolError {
    InvalidParameters(String),
    ExecutionError(String),
}

/// The mathematical content of a [`ToolError`].
pub enum ToolErrorView {
    InvalidParameters(Seq<char>),
    ExecutionError(Seq<char>),
}

impl View for ToolError {
    type V = ToolErrorView;

    open spec fn view(&self) -> ToolErrorView {
        match self {
            ToolError::InvalidParameters(m) => ToolErrorView::InvalidParameters(m@),
            ToolError::ExecutionError(m) => ToolErrorView::ExecutionError(m@),
        }
    }
}

/// The mathematical content of a [`MessageType`]: its lists as sequences.
pub enum MessageTypeView {
    User(Seq<MessageContent>),
    Assistant(Seq<AssistantContentBlock>),
    MiddlewareMessage(MessageContent),
    ToolCallResult(ToolCallResult),
}

impl View for MessageType {
    type V = MessageTypeView;

    open spec fn view(&self) -> MessageTypeView {
        match self {
            MessageType::User(v) => MessageTypeView::User(v@),
            MessageType::Assistant(a) => MessageTypeView::Assistant(a.blocks@),
            MessageType::MiddlewareMessage(c) => MessageTypeView::MiddlewareMessage(*c),
            MessageType::ToolCallResult(t) => MessageTypeView::ToolCallResult(*t),
        }
    }
}

/// The mathematical content of a [`Message`].
pub struct MessageView {
    pub data: MessageTypeView,
    pub usage: Option<Usage>,
    pub created_at: i64,
}

impl View for Message {
    type V = MessageView;

    open spec fn view(&self) -> MessageView {
        MessageView { data: self.data@, usage: self.usage, created_at: self.created_at }
    }
}

/// The contents of a list of messages.
pub open spec fn messages_view(s: Seq<Message>) -> Seq<MessageView> {
    s.map_values(|m: Message| m@)
}

/// The mathematical content of a [`Turn`].
pub struct TurnView {
    pub messages: Seq<MessageView>,
    pub usage: Usage,
    pub finished: bool,
}

impl View for Turn {
    type V = TurnView;

    open spec fn view(&self) -> TurnView {
        TurnView { messages: messages_view(self.messages@), usage: self.usage, finished: self.finished }
    }
}

// ---------------------------------------------------------------------------
// Exact copies
// ---------------------------------------------------------------------------

/// An equal copy of an optional string.
pub fn copy_opt_string(s: &Option<String>) -> (r: Option<String>)
    ensures
        r == *s,
{
    match s {
        Some(x) => Some(x.clone()),
        None => None,
    }
}

/// An equal copy of a tool call.
pub fn copy_tool_call(c: &ToolCall) -> (r: ToolCall)
    ensures
        r == *c,
{
    ToolCall { id: c.id.clone(), name: c.name.clone(), args: c.args.clone() }
}

/// An equal copy of a piece of input.
pub fn copy_content(c: &MessageContent) -> (r: MessageContent)
    ensures
        r == *c,
{
    match c {
        MessageContent::Text { content } => MessageContent::Text { content: content.clone() },
    }
}

/// An equal copy of a list of input pieces.
pub fn copy_contents(v: &Vec<MessageContent>) -> (r: Vec<MessageContent>)
    ensures
        r@ == v@,
{
    let mut r: Vec<MessageContent> = Vec::new();
    for i in 0..v.len()
        invariant
            r@ == v@.take(i as int),
    {
        r.push(copy_content(&v[i]));
        assert(r@ =~= v@.take(i + 1));
    }
    assert(v@.take(v@.len() as int) =~= v@);
    r
}

/// An equal copy of an assistant block.
pub fn copy_block(b: &AssistantContentBlock) -> (r: AssistantContentBlock)
    ensures
        r == *b,
{
    match b {
        AssistantContentBlock::Text { content, reasoning_content } => AssistantContentBlock::Text {
            content: content.clone(),
            reasoning_content: copy_opt_string(reasoning_content),
        },
        AssistantContentBlock::ToolCall(c) => AssistantContentBlock::ToolCall(copy_tool_call(c)),
    }
}

/// An equal copy of an assistant message.
pub fn copy_assistant(m: &AssistantMessage) -> (r: AssistantMessage)
    ensures
        r.blocks@ == m.blocks@,
{
    let mut blocks: Vec<AssistantContentBlock> = Vec::new();
    for i in 0..m.blocks.len()
        invariant
            blocks@ == m.blocks@.take(i as int),
    {
        blocks.push(copy_block(&m.blocks[i]));
        assert(blocks@ =~= m.blocks@.take(i + 1));
    }
    assert(m.blocks@.take(m.blocks@.len() as int) =~= m.blocks@);
    AssistantMessage { blocks }
}

/// An equal copy of a tool call's outcome.
pub fn copy_tool_result(t: &ToolCallResult) -> (r: ToolCallResult)
    ensures
        r == *t,
{
    let result = match &t.result {
        ToolCallResultInner::Success { value } => ToolCallResultInner::Success {
            value: value.clone(),
        },
        ToolCallResultInner::Error { error } => ToolCallResultInner::Error { error: error.clone() },
    };
    ToolCallResult { id: t.id.clone(), result }
}

/// An equal copy of what a message carries.
pub fn copy_message_type(m: &MessageType) -> (r: MessageType)
    ensures
        r@ == m@,
{
    match m {
        MessageType::User(v) => MessageType::User(copy_contents(v)),
        MessageType::Assistant(a) => MessageType::Assistant(copy_assistant(a)),
        MessageType::MiddlewareMessage(c) => MessageType::MiddlewareMessage(copy_content(c)),
        MessageType::ToolCallResult(t) => MessageType::ToolCallResult(copy_tool_result(t)),
    }
}

/// An equal copy of a message.
pub fn copy_message(m: &Message) -> (r: Message)
    ensures
        r@ == m@,
{
    Message { data: copy_message_type(&m.data), usage: m.usage, created_at: m.created_at }
}

/// An equal copy of a list of messages.
pub fn copy_messages(v: &Vec<Message>) -> (r: Vec<Message>)
    ensures
        messages_view(r@) == messages_view(v@),
{
    let mut r: Vec<Message> = Vec::new();
    for i in 0..v.len()
        invariant
            r@.len() == i,
            forall|j: int| 0 <= j < i ==> (#[trigger] r@[j])@ == v@[j]@,
    {
        r.push(copy_message(&v[i]));
    }
    assert(messages_view(r@) =~= messages_view(v@));
    r
}


/// An equal copy of a stop reason.
pub fn copy_stop_reason(r: &StopReason) -> (c: StopReason)
    ensures
        c == *r,
{
    match r {
        StopReason::Stop => StopReason::Stop,
        StopReason::Length => StopReason::Length,
        StopReason::MaxTokens => StopReason::MaxTokens,
        StopReason::Refusal => StopReason::Refusal,
        StopReason::Error(e) => StopReason::Error(e.clone()),
    }
}

/// The client event that forwards a provider event; a provider's message
/// start becomes an assistant message start.
pub open spec fn stream_event_spec(e: ProviderEvent) -> StreamEventData {
    match e {
        ProviderEvent::MessageStart => StreamEventData::MessageStart(
            MessageMetadata { role: Role::Assistant },
        ),
        ProviderEvent::MessageEnd(r) => StreamEventData::MessageEnd(r),
        ProviderEvent::Content(t) => StreamEventData::Content(t),
        ProviderEvent::ReasoningContent(t) => StreamEventData::ReasoningContent(t),
        ProviderEvent::ToolCall(c) => StreamEventData::ToolCall(c),
    }
}

/// The client event that forwards a provider event.
pub fn stream_event_data(e: &ProviderEvent) -> (r: StreamEventData)
    ensures
        r == stream_event_spec(*e),
{
    match e {
        ProviderEvent::MessageStart => StreamEventData::MessageStart(
            MessageMetadata { role: Role::Assistant },
        ),
        ProviderEvent::MessageEnd(r) => StreamEventData::MessageEnd(copy_stop_reason(r)),
        ProviderEvent::Content(t) => StreamEventData::Content(t.clone()),
        ProviderEvent::ReasoningContent(t) => StreamEventData::ReasoningContent(t.clone()),
        ProviderEvent::ToolCall(c) => StreamEventData::ToolCall(copy_tool_call(c)),
    }
}

} // verus!
