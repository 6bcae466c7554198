use nekocode::anthropic::{
    AnthropicStopReason, AnthropicStream, AnthropicUsage, ContentBlock, RawContentBlockDelta,
    RawMessageStreamEvent, StartMessage,
};
use nekocode::convert::ResponseAccumulator;
use nekocode::message::{AssistantContentBlock, ProviderEvent, StopReason};
use nekocode::openai::{
    is_done_marker, FinishReason, OpenAIV1Stream, StreamChoice, StreamChunk, StreamDelta,
    StreamDeltaToolCall, StreamFunction, StreamUsage,
};

fn tool_delta(index: usize, id: Option<&str>, name: Option<&str>, args: Option<&str>) -> StreamDeltaToolCall {
    StreamDeltaToolCall {
        index,
        id: id.map(|s| s.to_string()),
        function: Some(StreamFunction { name: name.map(|s| s.to_string()), arguments: args.map(|s| s.to_string()) }),
    }
}

fn chunk(delta: StreamDelta, finish: Option<FinishReason>) -> StreamChunk {
    StreamChunk { choices: vec![StreamChoice { delta, finish_reason: finish }], usage: None }
}

fn empty_delta() -> StreamDelta {
    StreamDelta { content: None, reasoning_content: None, tool_calls: None }
}

#[test]
fn openai_content_passes_through() {
    let mut s = OpenAIV1Stream::new();
    let mut d = empty_delta();
    d.content = Some("hi".into());
    assert!(matches!(s.handle_chunk(&chunk(d, None)), Some(ProviderEvent::Content(ref t)) if t == "hi"));
}

#[test]
fn openai_tool_calls_flush_in_index_order() {
    let mut s = OpenAIV1Stream::new();
    let mut d = empty_delta();
    d.tool_calls = Some(vec![
        tool_delta(1, Some("b"), Some("second"), Some("{\"x\":")),
        tool_delta(0, Some("a"), Some("first"), Some("{}")),
    ]);
    assert!(s.handle_chunk(&chunk(d, None)).is_none());
    let mut d = empty_delta();
    d.tool_calls = Some(vec![tool_delta(1, None, None, Some("1}"))]);
    let first = s.handle_chunk(&chunk(d, Some(FinishReason::ToolCalls)));
    match first {
        Some(ProviderEvent::ToolCall(c)) => {
            assert_eq!(c.id, "a");
            assert_eq!(c.name, "first");
        }
        _ => panic!("expected the first tool call"),
    }
    match s.pop_buffered() {
        Some(ProviderEvent::ToolCall(c)) => {
            assert_eq!(c.id, "b");
            assert_eq!(c.args, serde_json::from_str::<serde_json::Value>("{\"x\":1}").unwrap());
        }
        _ => panic!("expected the second tool call"),
    }
    assert!(s.pop_buffered().is_none());
}

#[test]
fn openai_single_message_end() {
    let mut s = OpenAIV1Stream::new();
    assert!(matches!(s.handle_chunk(&chunk(empty_delta(), Some(FinishReason::Stop))), Some(ProviderEvent::MessageEnd(StopReason::Stop))));
    assert!(s.take_termination().is_none());
    let mut t = OpenAIV1Stream::new();
    assert!(matches!(t.take_termination(), Some(ProviderEvent::MessageEnd(StopReason::Stop))));
    let mut f = OpenAIV1Stream::new();
    assert!(matches!(
        f.handle_chunk(&chunk(empty_delta(), Some(FinishReason::ContentFilter))),
        Some(ProviderEvent::MessageEnd(StopReason::Error(ref m))) if m == "Content filtered"
    ));
}

#[test]
fn openai_usage_and_done_marker() {
    let mut s = OpenAIV1Stream::new();
    let c = StreamChunk { choices: vec![], usage: Some(StreamUsage { prompt_tokens: 7, completion_tokens: 3 }) };
    assert!(s.handle_chunk(&c).is_none());
    let u = s.take_usage().unwrap();
    assert_eq!((u.total_input, u.total_output, u.cache_hit, u.cache_miss), (7, 3, false, 0));
    assert!(s.take_usage().is_none());
    assert!(is_done_marker("  [DONE]\n"));
    assert!(!is_done_marker("[DONE]x"));
}

fn usage() -> AnthropicUsage {
    AnthropicUsage { cache_creation_input_tokens: 4, cache_read_input_tokens: 1, input_tokens: 10, output_tokens: 0 }
}

#[test]
fn anthropic_streamed_tool_input_is_released_at_block_stop() {
    let mut s = AnthropicStream::new();
    let start = RawMessageStreamEvent::RawMessageStartEvent { message: StartMessage { content: vec![], usage: usage() } };
    assert!(matches!(s.handle_delta(start), Some(ProviderEvent::MessageStart)));
    let block = ContentBlock::ToolUseBlock {
        id: "t1".into(),
        input: serde_json::from_str("{}").unwrap(),
        name: "search".into(),
    };
    assert!(s.handle_delta(RawMessageStreamEvent::RawContentBlockStartEvent { index: 0, block }).is_none());
    for part in ["{\"q\":", "\"cats\"}"] {
        let d = RawContentBlockDelta::InputJsonDelta { partial_json: part.to_string() };
        assert!(s.handle_delta(RawMessageStreamEvent::RawContentBlockDeltaEvent { index: 0, delta: d }).is_none());
    }
    match s.handle_delta(RawMessageStreamEvent::RawContentBlockStopEvent { index: 0 }) {
        Some(ProviderEvent::ToolCall(c)) => {
            assert_eq!(c.id, "t1");
            assert_eq!(c.args, serde_json::from_str::<serde_json::Value>("{\"q\":\"cats\"}").unwrap());
        }
        _ => panic!("expected a tool call"),
    }
    assert!(s.handle_delta(RawMessageStreamEvent::RawContentBlockStopEvent { index: 0 }).is_none());
}

#[test]
fn anthropic_stop_reason_and_usage() {
    let mut s = AnthropicStream::new();
    let start = RawMessageStreamEvent::RawMessageStartEvent { message: StartMessage { content: vec![], usage: usage() } };
    s.handle_delta(start);
    s.handle_delta(RawMessageStreamEvent::RawMessageDeltaEvent { stop_reason: Some(AnthropicStopReason::MaxTokens), output_tokens: Some(42) });
    assert!(matches!(s.handle_delta(RawMessageStreamEvent::RawMessageStopEvent), Some(ProviderEvent::MessageEnd(StopReason::Length))));
    let u = s.take_usage().unwrap();
    assert_eq!((u.total_input, u.total_output, u.cache_hit, u.cache_miss), (10, 42, true, 4));
    let mut r = AnthropicStream::new();
    r.handle_delta(RawMessageStreamEvent::RawMessageDeltaEvent { stop_reason: Some(AnthropicStopReason::Refusal), output_tokens: None });
    assert!(matches!(
        r.handle_delta(RawMessageStreamEvent::RawMessageStopEvent),
        Some(ProviderEvent::MessageEnd(StopReason::Error(ref m))) if m == "Model refused the request"
    ));
}

#[test]
fn anthropic_text_blocks_and_given_tool_input() {
    let mut s = AnthropicStream::new();
    assert!(s.handle_delta(RawMessageStreamEvent::RawContentBlockStartEvent { index: 0, block: ContentBlock::TextBlock { text: String::new() } }).is_none());
    let block = ContentBlock::ToolUseBlock {
        id: "t2".into(),
        input: serde_json::from_str("{\"a\":1}").unwrap(),
        name: "x".into(),
    };
    assert!(matches!(s.handle_delta(RawMessageStreamEvent::RawContentBlockStartEvent { index: 1, block }), Some(ProviderEvent::ToolCall(_))));
    let d = RawContentBlockDelta::SignatureDelta { signature: "sig".into() };
    assert!(s.handle_delta(RawMessageStreamEvent::RawContentBlockDeltaEvent { index: 0, delta: d }).is_none());
}

#[test]
fn accumulator_builds_one_text_block_then_calls() {
    let mut acc = ResponseAccumulator::new();
    acc.ingest(&ProviderEvent::MessageStart);
    acc.ingest(&ProviderEvent::ReasoningContent("think".into()));
    acc.ingest(&ProviderEvent::Content("Hel".into()));
    acc.ingest(&ProviderEvent::Content("lo".into()));
    acc.ingest(&ProviderEvent::MessageEnd(StopReason::Stop));
    let msg = acc.finish();
    assert_eq!(msg.blocks.len(), 1);
    match &msg.blocks[0] {
        AssistantContentBlock::Text { content, reasoning_content } => {
            assert_eq!(content, "Hello");
            assert_eq!(reasoning_content.as_deref(), Some("think"));
        }
        _ => panic!("expected text"),
    }
    let empty = ResponseAccumulator::new().finish();
    assert!(empty.blocks.is_empty());
}

#[test]
fn openai_end_of_stream_releases_calls_then_ends_the_message() {
    let mut s = OpenAIV1Stream::new();
    let mut d = empty_delta();
    d.tool_calls = Some(vec![
        tool_delta(2, Some("c"), Some("third"), Some("{}")),
        tool_delta(0, Some("a"), Some("first"), Some("not json")),
    ]);
    assert!(s.handle_chunk(&chunk(d, None)).is_none());
    let mut names = Vec::new();
    loop {
        match s.take_termination() {
            Some(ProviderEvent::ToolCall(c)) => {
                if c.id == "a" {
                    assert_eq!(c.args, serde_json::Value::Null);
                }
                names.push(c.name);
            }
            Some(ProviderEvent::MessageEnd(StopReason::Stop)) => {
                names.push("end".to_string());
            }
            Some(other) => panic!("unexpected event {other:?}"),
            None => break,
        }
    }
    assert_eq!(names, vec!["first", "third", "end"]);
    assert!(s.take_termination().is_none());
    assert!(s.pop_buffered().is_none());
}

#[test]
fn openai_end_of_stream_after_an_ended_message_still_releases_calls() {
    let mut s = OpenAIV1Stream::new();
    let mut d = empty_delta();
    d.tool_calls = Some(vec![tool_delta(0, Some("a"), Some("first"), Some("{}"))]);
    assert!(s.handle_chunk(&chunk(d, None)).is_none());
    assert!(matches!(
        s.handle_chunk(&chunk(empty_delta(), Some(FinishReason::Stop))),
        Some(ProviderEvent::MessageEnd(StopReason::Stop))
    ));
    assert!(matches!(s.take_termination(), Some(ProviderEvent::ToolCall(ref c)) if c.name == "first"));
    assert!(s.take_termination().is_none());
}
