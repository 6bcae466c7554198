//! What a provider's answer becomes, and what a conversation becomes on
//! the wire: the gathering of streamed events into one assistant message,
//! and the conversion of messages and tools into OpenAI-style and
//! Anthropic-style request parts.
use vstd::prelude::*;

use crate::message::{
    copy_tool_call, json_serialized, json_text, json_to_string, serialize_json, AssistantContentBlock,
    AssistantMessage, MessageContent, MessageType, MessageTypeView, ProviderEvent, ToolCall,
    ToolCallResult, ToolCallResultInner, ToolCallView, ToolSpec,
};
use crate::text::push_str;

verus! {

broadcast use vstd::string::group_string_axioms;

// ---------------------------------------------------------------------------
// Response accumulation
// ---------------------------------------------------------------------------

/// Gathers the events of one generation into its assistant message.
#[derive(Debug)]
pub struct ResponseAccumulator {
    pub text: String,
    pub reasoning: String,
    pub tool_calls: Vec<ToolCall>,
}

/// The mathematical content of a [`ResponseAccumulator`].
pub struct AccumulatorView {
    pub text: Seq<char>,
    pub reasoning: Seq<char>,
    pub tool_calls: Seq<ToolCallView>,
}

/// The contents of a list of tool calls.
pub open spec fn calls_view(s: Seq<ToolCall>) -> Seq<ToolCallView> {
    s.map_values(|c: ToolCall| c@)
}

impl View for ResponseAccumulator {
    type V = AccumulatorView;

    open spec fn view(&self) -> AccumulatorView {
        AccumulatorView {
            text: self.text@,
            reasoning: self.reasoning@,
            tool_calls: calls_view(self.tool_calls@),
        }
    }
}

/// One event: content and reasoning are appended to their texts, a tool
/// call is kept, and the start and end of the message add nothing.
pub open spec fn ingest_spec(a: AccumulatorView, e: ProviderEvent) -> AccumulatorView {
    match e {
        ProviderEvent::Content(t) => AccumulatorView { text: a.text + t@, ..a },
        ProviderEvent::ReasoningContent(t) => AccumulatorView { reasoning: a.reasoning + t@, ..a },
        ProviderEvent::ToolCall(c) => AccumulatorView { tool_calls: a.tool_calls.push(c@), ..a },
        _ => a,
    }
}

/// The blocks of the finished message, described: a text block when there
/// is text or reasoning (the reasoning attached only when non-empty), then
/// one block per tool call, in order.
pub open spec fn finish_text_block(a: AccumulatorView) -> Option<(Seq<char>, Option<Seq<char>>)> {
    if a.text.len() > 0 {
        Some(
            (
                a.text,
                if a.reasoning.len() == 0 {
                    None
                } else {
                    Some(a.reasoning)
                },
            ),
        )
    } else if a.reasoning.len() > 0 {
        Some((Seq::empty(), Some(a.reasoning)))
    } else {
        None
    }
}

/// The content of an assistant block.
pub enum BlockView {
    Text(Seq<char>, Option<Seq<char>>),
    ToolCall(ToolCallView),
}

/// The content of an assistant block.
pub open spec fn block_view(b: AssistantContentBlock) -> BlockView {
    match b {
        AssistantContentBlock::Text { content, reasoning_content } => BlockView::Text(
            content@,
            match reasoning_content {
                Some(r) => Some(r@),
                None => None,
            },
        ),
        AssistantContentBlock::ToolCall(c) => BlockView::ToolCall(c@),
    }
}

/// The contents of a list of blocks.
pub open spec fn blocks_view(s: Seq<AssistantContentBlock>) -> Seq<BlockView> {
    s.map_values(|b: AssistantContentBlock| block_view(b))
}

/// The blocks of the message that an accumulator finishes into.
pub open spec fn finish_spec(a: AccumulatorView) -> Seq<BlockView> {
    let calls = a.tool_calls.map_values(|c: ToolCallView| BlockView::ToolCall(c));
    match finish_text_block(a) {
        Some((t, r)) => seq![BlockView::Text(t, r)] + calls,
        None => calls,
    }
}

impl ResponseAccumulator {
    /// An accumulator with nothing gathered.
    pub fn new() -> (r: Self)
        ensures
            r@ == (AccumulatorView {
                text: Seq::empty(),
                reasoning: Seq::empty(),
                tool_calls: Seq::empty(),
            }),
    {
        let r = ResponseAccumulator { text: String::new(), reasoning: String::new(), tool_calls: Vec::new() };
        assert(r@.tool_calls =~= Seq::<ToolCallView>::empty());
        r
    }

    /// Takes one event of the generation.
    pub fn ingest(&mut self, event: &ProviderEvent)
        ensures
            final(self)@ == ingest_spec(old(self)@, *event),
    {
        match event {
            ProviderEvent::Content(s) => push_str(&mut self.text, s.as_str()),
            ProviderEvent::ReasoningContent(s) => push_str(&mut self.reasoning, s.as_str()),
            ProviderEvent::ToolCall(tc) => {
                let ghost before = self.tool_calls@;
                self.tool_calls.push(copy_tool_call(tc));
                assert(calls_view(self.tool_calls@) =~= calls_view(before).push(tc@));
            },
            _ => {},
        }
    }

    /// The assistant message of the generation.
    pub fn finish(self) -> (r: AssistantMessage)
        ensures
            blocks_view(r.blocks@) == finish_spec(self@),
    {
        let ghost a = self@;
        let mut blocks: Vec<AssistantContentBlock> = Vec::new();
        let ResponseAccumulator { text, reasoning, tool_calls } = self;
        if !text.as_str().is_empty() {
            let reasoning_content = if reasoning.as_str().is_empty() {
                None
            } else {
                Some(reasoning)
            };
            blocks.push(AssistantContentBlock::Text { content: text, reasoning_content });
        } else if !reasoning.as_str().is_empty() {
            blocks.push(AssistantContentBlock::Text { content: String::new(), reasoning_content: Some(reasoning) });
        }
        let ghost head = blocks_view(blocks@);
        let ghost calls = a.tool_calls.map_values(|c: ToolCallView| BlockView::ToolCall(c));
        proof {
            match finish_text_block(a) {
                Some((t, r)) => assert(head =~= seq![BlockView::Text(t, r)]),
                None => assert(head =~= Seq::<BlockView>::empty()),
            }
        }
        let n0 = blocks.len();
        for tc in it: tool_calls
            invariant
                blocks@.len() == n0 + it.index(),
                n0 == head.len(),
                calls == a.tool_calls.map_values(|c: ToolCallView| BlockView::ToolCall(c)),
                calls_view(it.seq()) == a.tool_calls,
                blocks_view(blocks@) == head + calls.take(it.index() as int),
        {
            let ghost before = blocks@;
            proof {
                assert(it.index() < it.seq().len());
                assert(calls_view(it.seq())[it.index() as int] == tc@);
                assert(calls[it.index() as int] == BlockView::ToolCall(tc@));
            }
            blocks.push(AssistantContentBlock::ToolCall(tc));
            proof {
                assert(calls.take(it.index() + 1) =~= calls.take(it.index() as int).push(
                    BlockView::ToolCall(tc@),
                ));
                assert(blocks_view(blocks@) =~= blocks_view(before).push(BlockView::ToolCall(tc@)));
            }
        }
        proof {
            assert(calls.take(calls.len() as int) =~= calls);
        }
        AssistantMessage { blocks }
    }
}


// ---------------------------------------------------------------------------
// Message texts
// ---------------------------------------------------------------------------

/// The text of a piece of input.
pub open spec fn content_text(c: MessageContent) -> Seq<char> {
    match c {
        MessageContent::Text { content } => content@,
    }
}

/// The texts of a list of input pieces, one per line.
pub open spec fn joined_lines(cs: Seq<MessageContent>) -> Seq<char>
    decreases cs.len(),
{
    if cs.len() == 0 {
        Seq::empty()
    } else if cs.len() == 1 {
        content_text(cs[0])
    } else {
        joined_lines(cs.drop_last()) + "\n"@ + content_text(cs.last())
    }
}

/// The texts of the text blocks of an assistant message, run together.
pub open spec fn block_texts(bs: Seq<AssistantContentBlock>) -> Seq<char>
    decreases bs.len(),
{
    if bs.len() == 0 {
        Seq::empty()
    } else {
        block_texts(bs.drop_last()) + match bs.last() {
            AssistantContentBlock::Text { content, .. } => content@,
            AssistantContentBlock::ToolCall(_) => Seq::empty(),
        }
    }
}

/// The reasoning of the text blocks that carry one, run together.
pub open spec fn block_reasonings(bs: Seq<AssistantContentBlock>) -> Seq<char>
    decreases bs.len(),
{
    if bs.len() == 0 {
        Seq::empty()
    } else {
        block_reasonings(bs.drop_last()) + match bs.last() {
            AssistantContentBlock::Text { reasoning_content: Some(r), .. } => r@,
            _ => Seq::empty(),
        }
    }
}

/// How many text blocks carry reasoning.
pub open spec fn reasoning_count(bs: Seq<AssistantContentBlock>) -> nat
    decreases bs.len(),
{
    if bs.len() == 0 {
        0
    } else {
        reasoning_count(bs.drop_last()) + match bs.last() {
            AssistantContentBlock::Text { reasoning_content: Some(_), .. } => 1nat,
            _ => 0nat,
        }
    }
}

/// The tool calls of an assistant message, in order.
pub open spec fn block_calls(bs: Seq<AssistantContentBlock>) -> Seq<ToolCallView>
    decreases bs.len(),
{
    if bs.len() == 0 {
        Seq::empty()
    } else {
        match bs.last() {
            AssistantContentBlock::ToolCall(c) => block_calls(bs.drop_last()).push(c@),
            _ => block_calls(bs.drop_last()),
        }
    }
}

/// The text that reports a tool call's outcome: the JSON of a result, or
/// the error.
pub open spec fn tool_result_text_spec(r: ToolCallResult) -> Seq<char> {
    match r.result {
        ToolCallResultInner::Success { value } => json_text(value),
        ToolCallResultInner::Error { error } => error@,
    }
}

/// The text of a piece of input.
pub fn message_text(content: &MessageContent) -> (r: String)
    ensures
        r@ == content_text(*content),
{
    match content {
        MessageContent::Text { content } => content.clone(),
    }
}

/// The texts of input pieces, one per line.
pub fn join_lines(cs: &Vec<MessageContent>) -> (r: String)
    ensures
        r@ == joined_lines(cs@),
{
    let mut s = String::new();
    for i in 0..cs.len()
        invariant
            s@ == joined_lines(cs@.take(i as int)),
    {
        proof {
            assert(cs@.take(i + 1).drop_last() =~= cs@.take(i as int));
            assert(cs@.take(i + 1).last() == cs@[i as int]);
        }
        if i > 0 {
            push_str(&mut s, "\n");
        } else {
            assert(cs@.take(1)[0] == cs@[0]);
        }
        let t = message_text(&cs[i]);
        push_str(&mut s, t.as_str());
    }
    assert(cs@.take(cs@.len() as int) =~= cs@);
    s
}

/// The text that reports a tool call's outcome.
pub fn tool_result_text(result: &ToolCallResult) -> (r: String)
    ensures
        r@ == tool_result_text_spec(*result),
{
    match &result.result {
        ToolCallResultInner::Success { value } => json_to_string(value),
        ToolCallResultInner::Error { error } => error.clone(),
    }
}

// ---------------------------------------------------------------------------
// OpenAI-style requests
// ---------------------------------------------------------------------------

/// A tool call as an OpenAI-style request repeats it.
#[derive(Debug, Clone)]
pub struct ChatCompletionMessageToolCall {
    pub id: String,
    pub name: String,
    pub arguments: String,
}

/// One message of an OpenAI-style request.
#[derive(Debug, Clone)]
pub enum ChatCompletionMessageParam {
    ChatCompletionSystemMessageParam { content: String },
    ChatCompletionUserMessageParam { content: String },
    ChatCompletionAssistantMessageParam {
        content: String,
        tool_calls: Option<Vec<ChatCompletionMessageToolCall>>,
        reasoning_content: Option<String>,
    },
    ChatCompletionToolMessageParam { content: String, tool_call_id: String },
}

/// The content of an OpenAI-style message.
pub enum OpenAIMessageView {
    System(Seq<char>),
    User(Seq<char>),
    Assistant(Seq<char>, Option<Seq<(Seq<char>, Seq<char>, Seq<char>)>>, Option<Seq<char>>),
    Tool(Seq<char>, Seq<char>),
}

/// The content of a repeated tool call.
pub open spec fn wire_call_view(c: ChatCompletionMessageToolCall) -> (Seq<char>, Seq<char>, Seq<char>) {
    (c.id@, c.name@, c.arguments@)
}

impl View for ChatCompletionMessageParam {
    type V = OpenAIMessageView;

    open spec fn view(&self) -> OpenAIMessageView {
        match self {
            ChatCompletionMessageParam::ChatCompletionSystemMessageParam { content } =>
                OpenAIMessageView::System(content@),
            ChatCompletionMessageParam::ChatCompletionUserMessageParam { content } =>
                OpenAIMessageView::User(content@),
            ChatCompletionMessageParam::ChatCompletionAssistantMessageParam {
                content,
                tool_calls,
                reasoning_content,
            } => OpenAIMessageView::Assistant(
                content@,
                match tool_calls {
                    Some(v) => Some(v@.map_values(|c: ChatCompletionMessageToolCall| wire_call_view(c))),
                    None => None,
                },
                match reasoning_content {
                    Some(r) => Some(r@),
                    None => None,
                },
            ),
            ChatCompletionMessageParam::ChatCompletionToolMessageParam { content, tool_call_id } =>
                OpenAIMessageView::Tool(content@, tool_call_id@),
        }
    }
}

/// A tool call as the request repeats it: its arguments as JSON text.
pub open spec fn wire_call(c: ToolCallView) -> (Seq<char>, Seq<char>, Seq<char>) {
    (c.id, c.name, json_serialized(c.args))
}

/// The repeated tool calls: none when there are none.
pub open spec fn wire_calls_spec(cs: Seq<ToolCallView>) -> Option<Seq<(Seq<char>, Seq<char>, Seq<char>)>> {
    if cs.len() == 0 {
        None
    } else {
        Some(cs.map_values(|c: ToolCallView| wire_call(c)))
    }
}

/// The OpenAI-style message of a conversation message. User input becomes
/// one text, a line per piece; an assistant message repeats its text, its
/// tool calls and (only alongside tool calls, and only where some block
/// carried one) its reasoning; a middleware message is user text; a tool
/// result is reported under its call's id.
pub open spec fn openai_message_spec(m: MessageTypeView) -> OpenAIMessageView {
    match m {
        MessageTypeView::User(cs) => OpenAIMessageView::User(joined_lines(cs)),
        MessageTypeView::Assistant(bs) => OpenAIMessageView::Assistant(
            block_texts(bs),
            wire_calls_spec(block_calls(bs)),
            if block_calls(bs).len() > 0 && reasoning_count(bs) > 0 {
                Some(block_reasonings(bs))
            } else {
                None
            },
        ),
        MessageTypeView::MiddlewareMessage(c) => OpenAIMessageView::User(content_text(c)),
        MessageTypeView::ToolCallResult(r) => OpenAIMessageView::Tool(tool_result_text_spec(r), r.id@),
    }
}

/// The tool calls as an OpenAI-style request repeats them, or none when
/// there are none.
pub fn convert_tool_calls(tool_calls: &Vec<ToolCall>) -> (r: Option<Vec<ChatCompletionMessageToolCall>>)
    ensures
        match r {
            Some(v) => Some(v@.map_values(|c: ChatCompletionMessageToolCall| wire_call_view(c)))
                == wire_calls_spec(calls_view(tool_calls@)),
            None => wire_calls_spec(calls_view(tool_calls@)) is None,
        },
{
    if tool_calls.len() == 0 {
        return None;
    }
    let mut v: Vec<ChatCompletionMessageToolCall> = Vec::new();
    for i in 0..tool_calls.len()
        invariant
            v@.len() == i,
            forall|j: int| 0 <= j < i ==> wire_call_view(#[trigger] v@[j]) == wire_call(tool_calls@[j]@),
    {
        let tc = &tool_calls[i];
        v.push(
            ChatCompletionMessageToolCall {
                id: tc.id.clone(),
                name: tc.name.clone(),
                arguments: serialize_json(&tc.args),
            },
        );
    }
    assert(v@.map_values(|c: ChatCompletionMessageToolCall| wire_call_view(c)) =~= calls_view(
        tool_calls@,
    ).map_values(|c: ToolCallView| wire_call(c)));
    Some(v)
}

/// The OpenAI-style message of a conversation message.
pub fn convert_to_openai_message(msg: &MessageType) -> (r: ChatCompletionMessageParam)
    ensures
        r@ == openai_message_spec(msg@),
{
    match msg {
        MessageType::User(blocks) => ChatCompletionMessageParam::ChatCompletionUserMessageParam {
            content: join_lines(blocks),
        },
        MessageType::Assistant(assistant) => {
            let bs = &assistant.blocks;
            let mut content = String::new();
            let mut reasoning = String::new();
            let mut reasoning_parts: usize = 0;
            let mut tool_calls: Vec<ToolCall> = Vec::new();
            for i in 0..bs.len()
                invariant
                    content@ == block_texts(bs@.take(i as int)),
                    reasoning@ == block_reasonings(bs@.take(i as int)),
                    reasoning_parts == reasoning_count(bs@.take(i as int)),
                    calls_view(tool_calls@) == block_calls(bs@.take(i as int)),
                    reasoning_parts <= i,
            {
                proof {
                    assert(bs@.take(i + 1).drop_last() =~= bs@.take(i as int));
                    assert(bs@.take(i + 1).last() == bs@[i as int]);
                }
                match &bs[i] {
                    AssistantContentBlock::Text { content: text, reasoning_content } => {
                        push_str(&mut content, text.as_str());
                        match reasoning_content {
                            Some(r) => {
                                push_str(&mut reasoning, r.as_str());
                                reasoning_parts += 1;
                            },
                            None => {
                                assert(reasoning@ =~= reasoning@ + Seq::<char>::empty());
                            },
                        }
                    },
                    AssistantContentBlock::ToolCall(tc) => {
                        let ghost before = tool_calls@;
                        tool_calls.push(copy_tool_call(tc));
                        assert(calls_view(tool_calls@) =~= calls_view(before).push(tc@));
                        assert(content@ =~= content@ + Seq::<char>::empty());
                        assert(reasoning@ =~= reasoning@ + Seq::<char>::empty());
                    },
                }
            }
            assert(bs@.take(bs@.len() as int) =~= bs@);
            let has_tool_calls = tool_calls.len() > 0;
            let wire = convert_tool_calls(&tool_calls);
            let reasoning_content = if has_tool_calls && reasoning_parts > 0 {
                Some(reasoning)
            } else {
                None
            };
            ChatCompletionMessageParam::ChatCompletionAssistantMessageParam {
                content,
                tool_calls: wire,
                reasoning_content,
            }
        },
        MessageType::MiddlewareMessage(content) => ChatCompletionMessageParam::ChatCompletionUserMessageParam {
            content: message_text(content),
        },
        MessageType::ToolCallResult(result) => ChatCompletionMessageParam::ChatCompletionToolMessageParam {
            content: tool_result_text(result),
            tool_call_id: result.id.clone(),
        },
    }
}

/// The messages of an OpenAI-style request: the system prompt first, where
/// there is one, then each conversation message converted, in order.
pub fn build_openai_messages(system_prompt: &Option<String>, messages: &Vec<MessageType>) -> (r: Vec<
    ChatCompletionMessageParam,
>)
    ensures
        r@.map_values(|m: ChatCompletionMessageParam| m@) == (match system_prompt {
            Some(s) => seq![OpenAIMessageView::System(s@)],
            None => Seq::empty(),
        }) + messages@.map_values(|m: MessageType| openai_message_spec(m@)),
{
    let mut r: Vec<ChatCompletionMessageParam> = Vec::new();
    match system_prompt {
        Some(s) => r.push(ChatCompletionMessageParam::ChatCompletionSystemMessageParam { content: s.clone() }),
        None => {},
    }
    let n0 = r.len();
    for i in 0..messages.len()
        invariant
            n0 <= 1,
            r@.len() == n0 + i,
            n0 == 1 <==> system_prompt is Some,
            n0 == 1 ==> r@[0]@ == OpenAIMessageView::System(system_prompt->0@),
            forall|j: int| 0 <= j < i ==> (#[trigger] r@[n0 + j])@ == openai_message_spec(messages@[j]@),
    {
        r.push(convert_to_openai_message(&messages[i]));
    }
    let ghost head = match system_prompt {
        Some(s) => seq![OpenAIMessageView::System(s@)],
        None => Seq::<OpenAIMessageView>::empty(),
    };
    let ghost tail = messages@.map_values(|m: MessageType| openai_message_spec(m@));
    assert(r@.map_values(|m: ChatCompletionMessageParam| m@) =~= head + tail) by {
        assert forall|j: int| 0 <= j < r@.len() implies r@.map_values(
            |m: ChatCompletionMessageParam| m@,
        )[j] == (head + tail)[j] by {
            if j >= n0 {
                assert(r@[n0 + (j - n0)] == r@[j]);
            }
        }
    }
    r
}

/// A tool as an OpenAI-style request offers it.
#[derive(Debug, Clone)]
pub struct ChatCompletionTool {
    pub tool_type: String,
    pub name: String,
    pub description: String,
    pub parameters: serde_json::Value,
}

/// The tools of an OpenAI-style request, each a "function" with its name,
/// description and parameter schema; none when there are no tools.
pub fn build_openai_tools(specs: &Vec<ToolSpec>) -> (r: Option<Vec<ChatCompletionTool>>)
    ensures
        specs@.len() == 0 <==> r is None,
        match r {
            Some(v) => v@.len() == specs@.len() && forall|i: int|
                0 <= i < v@.len() ==> {
                    &&& (#[trigger] v@[i]).tool_type@ == "function"@
                    &&& v@[i].name@ == specs@[i].name@
                    &&& v@[i].description@ == specs@[i].description@
                    &&& v@[i].parameters == specs@[i].parameter_schema
                },
            None => true,
        },
{
    if specs.len() == 0 {
        return None;
    }
    let mut v: Vec<ChatCompletionTool> = Vec::new();
    for i in 0..specs.len()
        invariant
            v@.len() == i,
            forall|j: int|
                0 <= j < i ==> {
                    &&& (#[trigger] v@[j]).tool_type@ == "function"@
                    &&& v@[j].name@ == specs@[j].name@
                    &&& v@[j].description@ == specs@[j].description@
                    &&& v@[j].parameters == specs@[j].parameter_schema
                },
    {
        let mut t = String::new();
        push_str(&mut t, "function");
        v.push(
            ChatCompletionTool {
                tool_type: t,
                name: specs[i].name.clone(),
                description: specs[i].description.clone(),
                parameters: specs[i].parameter_schema.clone(),
            },
        );
    }
    Some(v)
}

// ---------------------------------------------------------------------------
// Anthropic-style requests
// ---------------------------------------------------------------------------

/// Who speaks a message of an Anthropic-style request.
#[derive(Debug, Clone, Copy, PartialEq, Eq, Structural)]
pub enum AnthropicRole {
    User,
    Assistant,
}

/// One block of an Anthropic-style request message.
#[derive(Debug, Clone)]
pub enum ContentBlockParam {
    TextBlockParam { text: String },
    ToolUseBlockParam { id: String, input: serde_json::Value, name: String },
    ToolResultBlockParam { tool_use_id: String },
}

/// One message of an Anthropic-style request; its content is a list of
/// blocks.
#[derive(Debug, Clone)]
pub struct MessageParam {
    pub role: AnthropicRole,
    pub content: Vec<ContentBlockParam>,
}

/// The content of a request block.
pub enum ParamBlockView {
    Text(Seq<char>),
    ToolUse(Seq<char>, serde_json::Value, Seq<char>),
    ToolResult(Seq<char>),
}

/// The content of a request block.
pub open spec fn param_block_view(b: ContentBlockParam) -> ParamBlockView {
    match b {
        ContentBlockParam::TextBlockParam { text } => ParamBlockView::Text(text@),
        ContentBlockParam::ToolUseBlockParam { id, input, name } => ParamBlockView::ToolUse(
            id@,
            input,
            name@,
        ),
        ContentBlockParam::ToolResultBlockParam { tool_use_id } => ParamBlockView::ToolResult(
            tool_use_id@,
        ),
    }
}

/// The request block of an assistant block: text without its reasoning, or
/// the tool use.
pub open spec fn anthropic_block_spec(b: AssistantContentBlock) -> ParamBlockView {
    match b {
        AssistantContentBlock::Text { content, .. } => ParamBlockView::Text(content@),
        AssistantContentBlock::ToolCall(c) => ParamBlockView::ToolUse(c.id@, c.args, c.name@),
    }
}

/// The Anthropic-style message of a conversation message: user input, a
/// block per piece; an assistant message, a block per block; a middleware
/// message, one user text block; a tool result, a user block that names the
/// call.
pub open spec fn anthropic_message_spec(m: MessageTypeView) -> (AnthropicRole, Seq<ParamBlockView>) {
    match m {
        MessageTypeView::User(cs) => (
            AnthropicRole::User,
            cs.map_values(|c: MessageContent| ParamBlockView::Text(content_text(c))),
        ),
        MessageTypeView::Assistant(bs) => (
            AnthropicRole::Assistant,
            bs.map_values(|b: AssistantContentBlock| anthropic_block_spec(b)),
        ),
        MessageTypeView::MiddlewareMessage(c) => (
            AnthropicRole::User,
            seq![ParamBlockView::Text(content_text(c))],
        ),
        MessageTypeView::ToolCallResult(r) => (
            AnthropicRole::User,
            seq![ParamBlockView::ToolResult(r.id@)],
        ),
    }
}

/// The Anthropic-style message of a conversation message.
pub fn to_anthropic_message(msg: &MessageType) -> (r: MessageParam)
    ensures
        (r.role, r.content@.map_values(|b: ContentBlockParam| param_block_view(b)))
            == anthropic_message_spec(msg@),
{
    match msg {
        MessageType::User(blocks) => {
            let mut content: Vec<ContentBlockParam> = Vec::new();
            for i in 0..blocks.len()
                invariant
                    content@.len() == i,
                    forall|j: int|
                        0 <= j < i ==> param_block_view(#[trigger] content@[j]) == ParamBlockView::Text(
                            content_text(blocks@[j]),
                        ),
            {
                content.push(ContentBlockParam::TextBlockParam { text: message_text(&blocks[i]) });
            }
            assert(content@.map_values(|b: ContentBlockParam| param_block_view(b)) =~= blocks@.map_values(
                |c: MessageContent| ParamBlockView::Text(content_text(c)),
            ));
            MessageParam { role: AnthropicRole::User, content }
        },
        MessageType::Assistant(assistant) => {
            let bs = &assistant.blocks;
            let mut content: Vec<ContentBlockParam> = Vec::new();
            for i in 0..bs.len()
                invariant
                    content@.len() == i,
                    forall|j: int|
                        0 <= j < i ==> param_block_view(#[trigger] content@[j]) == anthropic_block_spec(
                            bs@[j],
                        ),
            {
                match &bs[i] {
                    AssistantContentBlock::Text { content: text, .. } => {
                        content.push(ContentBlockParam::TextBlockParam { text: text.clone() });
                    },
                    AssistantContentBlock::ToolCall(tc) => {
                        content.push(
                            ContentBlockParam::ToolUseBlockParam {
                                id: tc.id.clone(),
                                input: tc.args.clone(),
                                name: tc.name.clone(),
                            },
                        );
                    },
                }
            }
            assert(content@.map_values(|b: ContentBlockParam| param_block_view(b)) =~= bs@.map_values(
                |b: AssistantContentBlock| anthropic_block_spec(b),
            ));
            MessageParam { role: AnthropicRole::Assistant, content }
        },
        MessageType::MiddlewareMessage(c) => {
            let content = vec![ContentBlockParam::TextBlockParam { text: message_text(c) }];
            assert(content@.map_values(|b: ContentBlockParam| param_block_view(b)) =~= seq![
                ParamBlockView::Text(content_text(*c)),
            ]);
            MessageParam { role: AnthropicRole::User, content }
        },
        MessageType::ToolCallResult(result) => {
            let content = vec![ContentBlockParam::ToolResultBlockParam { tool_use_id: result.id.clone() }];
            assert(content@.map_values(|b: ContentBlockParam| param_block_view(b)) =~= seq![
                ParamBlockView::ToolResult(result.id@),
            ]);
            MessageParam { role: AnthropicRole::User, content }
        },
    }
}

/// A tool as an Anthropic-style request offers it.
#[derive(Debug, Clone)]
pub struct AnthropicTool {
    pub name: String,
    pub description: Option<String>,
    pub input_schema: serde_json::Value,
}

/// The tools of an Anthropic-style request; none when there are no tools.
pub fn build_anthropic_tools(specs: &Vec<ToolSpec>) -> (r: Option<Vec<AnthropicTool>>)
    ensures
        specs@.len() == 0 <==> r is None,
        match r {
            Some(v) => v@.len() == specs@.len() && forall|i: int|
                0 <= i < v@.len() ==> {
                    &&& (#[trigger] v@[i]).name@ == specs@[i].name@
                    &&& v@[i].description is Some
                    &&& v@[i].description->0@ == specs@[i].description@
                    &&& v@[i].input_schema == specs@[i].parameter_schema
                },
            None => true,
        },
{
    if specs.len() == 0 {
        return None;
    }
    let mut v: Vec<AnthropicTool> = Vec::new();
    for i in 0..specs.len()
        invariant
            v@.len() == i,
            forall|j: int|
                0 <= j < i ==> {
                    &&& (#[trigger] v@[j]).name@ == specs@[j].name@
                    &&& v@[j].description is Some
                    &&& v@[j].description->0@ == specs@[j].description@
                    &&& v@[j].input_schema == specs@[j].parameter_schema
                },
    {
        v.push(
            AnthropicTool {
                name: specs[i].name.clone(),
                description: Some(specs[i].description.clone()),
                input_schema: specs[i].parameter_schema.clone(),
            },
        );
    }
    Some(v)
}

// ---------------------------------------------------------------------------
// Laws
// ---------------------------------------------------------------------------

/// The accumulator after a list of events, taken in order.
pub open spec fn ingest_all(a: AccumulatorView, es: Seq<ProviderEvent>) -> AccumulatorView
    decreases es.len(),
{
    if es.len() == 0 {
        a
    } else {
        ingest_spec(ingest_all(a, es.drop_last()), es.last())
    }
}

/// The tool calls among a list of events, in order.
pub open spec fn event_calls(es: Seq<ProviderEvent>) -> Seq<ToolCallView>
    decreases es.len(),
{
    if es.len() == 0 {
        Seq::empty()
    } else {
        match es.last() {
            ProviderEvent::ToolCall(c) => event_calls(es.drop_last()).push(c@),
            _ => event_calls(es.drop_last()),
        }
    }
}

/// The content texts among a list of events, joined in order.
pub open spec fn event_text(es: Seq<ProviderEvent>) -> Seq<char>
    decreases es.len(),
{
    if es.len() == 0 {
        Seq::empty()
    } else {
        match es.last() {
            ProviderEvent::Content(t) => event_text(es.drop_last()) + t@,
            _ => event_text(es.drop_last()),
        }
    }
}

/// The tool calls among a list of blocks, in order.
pub open spec fn view_calls(bs: Seq<BlockView>) -> Seq<ToolCallView>
    decreases bs.len(),
{
    if bs.len() == 0 {
        Seq::empty()
    } else {
        match bs.last() {
            BlockView::ToolCall(c) => view_calls(bs.drop_last()).push(c),
            _ => view_calls(bs.drop_last()),
        }
    }
}

/// How many text blocks a list of blocks holds.
pub open spec fn text_block_count(bs: Seq<BlockView>) -> nat
    decreases bs.len(),
{
    if bs.len() == 0 {
        0
    } else {
        text_block_count(bs.drop_last()) + match bs.last() {
            BlockView::Text(_, _) => 1nat,
            _ => 0nat,
        }
    }
}

proof fn lemma_ingest_all(es: Seq<ProviderEvent>)
    ensures
        ingest_all(AccumulatorView { text: Seq::empty(), reasoning: Seq::empty(), tool_calls: Seq::empty() }, es).tool_calls
            == event_calls(es),
        ingest_all(AccumulatorView { text: Seq::empty(), reasoning: Seq::empty(), tool_calls: Seq::empty() }, es).text
            == event_text(es),
    decreases es.len(),
{
    if es.len() > 0 {
        lemma_ingest_all(es.drop_last());
    }
}

proof fn lemma_calls_blocks(cs: Seq<ToolCallView>)
    ensures
        view_calls(cs.map_values(|c: ToolCallView| BlockView::ToolCall(c))) == cs,
        text_block_count(cs.map_values(|c: ToolCallView| BlockView::ToolCall(c))) == 0,
    decreases cs.len(),
{
    let m = cs.map_values(|c: ToolCallView| BlockView::ToolCall(c));
    if cs.len() > 0 {
        lemma_calls_blocks(cs.drop_last());
        assert(m.drop_last() =~= cs.drop_last().map_values(|c: ToolCallView| BlockView::ToolCall(c)));
        assert(m.last() == BlockView::ToolCall(cs.last()));
        assert(cs.drop_last().push(cs.last()) =~= cs);
    } else {
        assert(m.len() == 0);
    }
}

proof fn lemma_text_then_calls(b: BlockView, cs: Seq<ToolCallView>)
    requires
        b is Text,
    ensures
        view_calls(seq![b] + cs.map_values(|c: ToolCallView| BlockView::ToolCall(c))) == cs,
        text_block_count(seq![b] + cs.map_values(|c: ToolCallView| BlockView::ToolCall(c))) == 1,
    decreases cs.len(),
{
    let m = cs.map_values(|c: ToolCallView| BlockView::ToolCall(c));
    if cs.len() == 0 {
        assert(seq![b] + m =~= seq![b]);
        assert(seq![b].drop_last() =~= Seq::<BlockView>::empty());
        assert(seq![b].last() == b);
        assert(view_calls(seq![b]) == view_calls(Seq::<BlockView>::empty()));
        assert(text_block_count(seq![b]) == text_block_count(Seq::<BlockView>::empty()) + 1);
        assert(cs =~= Seq::<ToolCallView>::empty());
    } else {
        lemma_text_then_calls(b, cs.drop_last());
        assert((seq![b] + m).drop_last() =~= seq![b] + cs.drop_last().map_values(
            |c: ToolCallView| BlockView::ToolCall(c),
        ));
        assert((seq![b] + m).last() == BlockView::ToolCall(cs.last()));
        assert(cs.drop_last().push(cs.last()) =~= cs);
    }
}

/// The message that a generation's events finish into keeps every tool
/// call of the events, in order, as its tool-call blocks, whatever text or
/// reasoning came with them; it has at most one text block, first, and when
/// the events carried content that block holds all of it, in order.
pub proof fn law_finish_keeps_every_call(es: Seq<ProviderEvent>)
    ensures
        ({
            let a = ingest_all(AccumulatorView { text: Seq::empty(), reasoning: Seq::empty(), tool_calls: Seq::empty() }, es);
            let bs = finish_spec(a);
            &&& view_calls(bs) == event_calls(es)
            &&& text_block_count(bs) <= 1
            &&& event_text(es).len() > 0 ==> (bs.len() > 0 && (bs[0] matches BlockView::Text(t, _) && t == event_text(es)))
        }),
{
    lemma_ingest_all(es);
    let a = ingest_all(AccumulatorView { text: Seq::empty(), reasoning: Seq::empty(), tool_calls: Seq::empty() }, es);
    lemma_calls_blocks(a.tool_calls);
    match finish_text_block(a) {
        Some((t, r)) => lemma_text_then_calls(BlockView::Text(t, r), a.tool_calls),
        None => {},
    }
}

/// An Anthropic-style request message speaks as the assistant exactly for
/// an assistant message of the conversation; everything else is the user's.
pub proof fn law_anthropic_role(m: MessageTypeView)
    ensures
        (anthropic_message_spec(m).0 == AnthropicRole::Assistant) <==> (m is Assistant),
        (anthropic_message_spec(m).0 == AnthropicRole::User) <==> !(m is Assistant),
{
}

} // verus!
