use nekocode::convert::{
    build_anthropic_tools, build_openai_messages, build_openai_tools, convert_to_openai_message,
    to_anthropic_message, AnthropicRole, ChatCompletionMessageParam, ContentBlockParam,
};
use nekocode::message::{
    AssistantContentBlock, AssistantMessage, MessageContent, MessageType, ToolCall, ToolCallResult,
    ToolCallResultInner, ToolSpec,
};

fn text(s: &str) -> MessageContent {
    MessageContent::Text { content: s.into() }
}

#[test]
fn user_pieces_become_lines() {
    let m = MessageType::User(vec![text("a"), text("b")]);
    match convert_to_openai_message(&m) {
        ChatCompletionMessageParam::ChatCompletionUserMessageParam { content } => assert_eq!(content, "a\nb"),
        _ => panic!("expected user"),
    }
}

#[test]
fn assistant_reasoning_only_alongside_tool_calls() {
    let call = ToolCall { id: "c1".into(), name: "f".into(), args: serde_json::from_str("{\"a\":1}").unwrap() };
    let with_call = MessageType::Assistant(AssistantMessage {
        blocks: vec![
            AssistantContentBlock::Text { content: "x".into(), reasoning_content: Some("r".into()) },
            AssistantContentBlock::ToolCall(call),
        ],
    });
    match convert_to_openai_message(&with_call) {
        ChatCompletionMessageParam::ChatCompletionAssistantMessageParam { content, tool_calls, reasoning_content } => {
            assert_eq!(content, "x");
            let calls = tool_calls.unwrap();
            assert_eq!(calls.len(), 1);
            assert_eq!(calls[0].arguments, "{\"a\":1}");
            assert_eq!(reasoning_content.as_deref(), Some("r"));
        }
        _ => panic!("expected assistant"),
    }
    let without = MessageType::Assistant(AssistantMessage {
        blocks: vec![AssistantContentBlock::Text { content: "x".into(), reasoning_content: Some("r".into()) }],
    });
    match convert_to_openai_message(&without) {
        ChatCompletionMessageParam::ChatCompletionAssistantMessageParam { tool_calls, reasoning_content, .. } => {
            assert!(tool_calls.is_none());
            assert!(reasoning_content.is_none());
        }
        _ => panic!("expected assistant"),
    }
}

#[test]
fn tool_results_and_system_prompt() {
    let r = MessageType::ToolCallResult(ToolCallResult {
        id: "c1".into(),
        result: ToolCallResultInner::Success { value: serde_json::Value::from(5) },
    });
    let msgs = build_openai_messages(&Some("sys".into()), &vec![r]);
    assert_eq!(msgs.len(), 2);
    assert!(matches!(msgs[0], ChatCompletionMessageParam::ChatCompletionSystemMessageParam { ref content } if content == "sys"));
    match &msgs[1] {
        ChatCompletionMessageParam::ChatCompletionToolMessageParam { content, tool_call_id } => {
            assert_eq!(content, "5");
            assert_eq!(tool_call_id, "c1");
        }
        _ => panic!("expected tool message"),
    }
}

#[test]
fn anthropic_messages_and_tools() {
    let m = to_anthropic_message(&MessageType::MiddlewareMessage(text("again")));
    assert_eq!(m.role, AnthropicRole::User);
    assert!(matches!(m.content[0], ContentBlockParam::TextBlockParam { ref text } if text == "again"));
    let r = to_anthropic_message(&MessageType::ToolCallResult(ToolCallResult {
        id: "c9".into(),
        result: ToolCallResultInner::Error { error: "e".into() },
    }));
    assert!(matches!(r.content[0], ContentBlockParam::ToolResultBlockParam { ref tool_use_id } if tool_use_id == "c9"));
    assert!(build_openai_tools(&vec![]).is_none());
    assert!(build_anthropic_tools(&vec![]).is_none());
    let spec = ToolSpec { name: "t".into(), description: "d".into(), parameter_schema: serde_json::Value::Null };
    let tools = build_openai_tools(&vec![spec.clone()]).unwrap();
    assert_eq!(tools[0].tool_type, "function");
    let tools = build_anthropic_tools(&vec![spec]).unwrap();
    assert_eq!(tools[0].description.as_deref(), Some("d"));
}
