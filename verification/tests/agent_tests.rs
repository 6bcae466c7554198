use nekocode::agent::{
    tool_not_found, tool_outcome, AgentControlFlow, GenerateResponse, ProviderResponse, TurnRecorder,
};
use nekocode::message::{
    AssistantContentBlock, AssistantMessage, MessageContent, MessageType, StreamEventData, ToolCall,
    ToolCallResultInner, ToolError, Usage,
};

fn text_input(s: &str) -> Vec<MessageContent> {
    vec![MessageContent::Text { content: s.into() }]
}

fn text_msg(s: &str) -> AssistantMessage {
    AssistantMessage {
        blocks: vec![AssistantContentBlock::Text { content: s.to_string(), reasoning_content: None }],
    }
}

fn toolcall_msg(id: &str, name: &str, args: serde_json::Value) -> AssistantMessage {
    AssistantMessage {
        blocks: vec![AssistantContentBlock::ToolCall(ToolCall {
            id: id.to_string(),
            name: name.to_string(),
            args,
        })],
    }
}

fn mock_usage() -> Usage {
    Usage { total_input: 10, total_output: 5, cache_hit: false, cache_miss: 10 }
}

#[test]
fn run_loop_success_returns_complete_turn() {
    let mut rec = TurnRecorder::start("/tmp", text_input("hi"), Vec::new(), 1_000);
    let calls = rec.record_response(ProviderResponse { message: text_msg("hello"), usage: mock_usage() }, 2_000);
    assert!(calls.is_empty());
    assert!(rec.apply_control_flow(AgentControlFlow::Output, 3_000).is_none());
    let turn = rec.finish();
    assert!(turn.finished);
    assert_eq!(turn.messages.len(), 2);
    assert!(matches!(turn.messages[0].data, MessageType::User(_)));
    assert!(matches!(turn.messages[1].data, MessageType::Assistant(_)));
    assert_eq!(turn.usage.total_input, 10);
    assert_eq!(turn.usage.total_output, 5);
    assert!(turn.messages[1].usage.is_some());
}

#[test]
fn run_loop_tool_call_round_appends_results() {
    let mut rec = TurnRecorder::start("/tmp", text_input("hi"), Vec::new(), 1_000);
    let args = serde_json::Value::from("v");
    let calls = rec.record_response(ProviderResponse {
        message: toolcall_msg("call_1", "echo", args.clone()),
        usage: mock_usage(),
    }, 2_000);
    assert_eq!(calls.len(), 1);
    let result = tool_outcome(&calls[0], Ok(args));
    rec.record_tool_result(result, 2_500);
    let next = rec.follow_up_request(Some("sys".to_string()), Vec::new());
    assert_eq!(next.messages.len(), 3);
    let calls = rec.record_response(ProviderResponse { message: text_msg("done"), usage: mock_usage() }, 2_000);
    assert!(calls.is_empty());
    let turn = rec.finish();
    assert!(turn.finished);
    assert_eq!(turn.messages.len(), 4);
    assert!(matches!(turn.messages[2].data, MessageType::ToolCallResult(_)));
    assert_eq!(turn.usage.total_input, 20);
    assert_eq!(turn.usage.total_output, 10);
}

#[test]
fn run_loop_error_returns_partial_turn_and_error_event() {
    let rec = TurnRecorder::start("/tmp", text_input("hi"), Vec::new(), 1_000);
    let turn = rec.fail();
    assert!(!turn.finished);
    assert_eq!(turn.messages.len(), 1);
    assert!(matches!(turn.messages[0].data, MessageType::User(_)));
}

#[test]
fn run_loop_middleware_regenerate_injects_message() {
    let mut rec = TurnRecorder::start("/tmp", text_input("hi"), Vec::new(), 1_000);
    rec.record_response(ProviderResponse { message: text_msg("first"), usage: mock_usage() }, 2_000);
    let next = rec
        .apply_control_flow(AgentControlFlow::GenerateWith(MessageContent::Text {
            content: "regenerate me".into(),
        }), 3_000)
        .expect("regenerate");
    assert_eq!(next.system_prompt.as_deref(), Some("Working directory: /tmp\n"));
    assert_eq!(next.messages.len(), 3);
    rec.record_response(ProviderResponse { message: text_msg("second"), usage: mock_usage() }, 2_000);
    let turn = rec.finish();
    assert!(turn.finished);
    assert_eq!(turn.messages.len(), 4);
    assert!(matches!(turn.messages[2].data, MessageType::MiddlewareMessage(_)));
}

#[test]
fn first_request_continues_history_under_base_prompt() {
    let mut first = TurnRecorder::start("/srv", text_input("a"), Vec::new(), 1_000);
    first.record_response(ProviderResponse { message: text_msg("b"), usage: mock_usage() }, 2_000);
    let old = first.finish();
    let rec = TurnRecorder::start("/srv", text_input("c"), vec![old], 5_000);
    let req = rec.base_request();
    assert_eq!(req.messages.len(), 3);
    assert_eq!(req.system_prompt.as_deref(), Some("Working directory: /srv\n"));
    assert!(req.tool_specs().is_empty());
}

#[test]
fn unknown_tool_and_tool_failure_results() {
    let call = ToolCall { id: "c1".into(), name: "nope".into(), args: serde_json::Value::Null };
    let r = tool_not_found(&call);
    assert_eq!(r.id, "c1");
    assert!(matches!(r.result, ToolCallResultInner::Error { ref error } if error == "Tool not found"));
    let r = tool_outcome(&call, Err(ToolError::ExecutionError("boom".into())));
    assert!(matches!(r.result, ToolCallResultInner::Error { ref error } if error == "Execution error: boom"));
}

#[test]
fn usage_sums_and_cache_hit_sticks() {
    let mut rec = TurnRecorder::start("/tmp", text_input("hi"), Vec::new(), 1_000);
    rec.record_response(ProviderResponse {
        message: text_msg("a"),
        usage: Usage { total_input: 1, total_output: 2, cache_hit: true, cache_miss: 3 },
    }, 2_000);
    rec.record_response(ProviderResponse {
        message: text_msg("b"),
        usage: Usage { total_input: 4, total_output: 5, cache_hit: false, cache_miss: 6 },
    }, 3_000);
    let u = rec.usage();
    assert_eq!((u.total_input, u.total_output, u.cache_hit, u.cache_miss), (5, 7, true, 9));
}

#[test]
fn generate_response_merges_tool_results_only() {
    let mut resp = GenerateResponse::new();
    resp.merge(ProviderResponse { message: text_msg("x"), usage: mock_usage() });
    let call = ToolCall { id: "c".into(), name: "t".into(), args: serde_json::Value::Null };
    resp.merge_stream_event(StreamEventData::ToolCallResult(tool_not_found(&call)));
    resp.merge_stream_event(StreamEventData::TurnEnd);
    assert_eq!(resp.message.len(), 2);
}

#[test]
fn recorded_messages_carry_their_times() {
    let mut rec = TurnRecorder::start("/tmp", text_input("hi"), Vec::new(), 1_000);
    let args = serde_json::Value::from("v");
    let calls = rec.record_response(ProviderResponse {
        message: toolcall_msg("call_1", "echo", args.clone()),
        usage: mock_usage(),
    }, 2_000);
    rec.record_tool_result(tool_outcome(&calls[0], Ok(args)), 2_500);
    rec.apply_control_flow(AgentControlFlow::GenerateWith(MessageContent::Text { content: "again".into() }), 3_000);
    let turn = rec.finish();
    let times: Vec<i64> = turn.messages.iter().map(|m| m.created_at).collect();
    assert_eq!(times, vec![1_000, 2_000, 2_500, 3_000]);
}
