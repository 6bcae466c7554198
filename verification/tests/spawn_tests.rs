use nekocode::message::{AssistantContentBlock, AssistantMessage, Message, MessageContent, MessageType};
use nekocode::profile::{ProfileCatalog, ProfileFile, SubagentProfile};
use nekocode::registry::SubagentSnapshot;
use nekocode::spawn::{
    last_assistant_text, plan_spawn, read_snapshot, MiddlewareSpec, SpawnContext, SubagentConfig, SubagentRead,
};

fn catalog_with_explorer_and_heavy() -> ProfileCatalog {
    let explorer = SubagentProfile {
        name: "explorer".into(),
        system_prompt: None,
        working_directory: None,
        allow_nested: false,
        middlewares: vec![],
    };
    let heavy = SubagentProfile {
        name: "heavy".into(),
        system_prompt: None,
        working_directory: Some("/work".into()),
        allow_nested: true,
        middlewares: vec!["shell".into()],
    };
    ProfileCatalog::load(Some(ProfileFile { path: "/g".into(), agents: vec![explorer, heavy] }), None).unwrap()
}

fn ctx(allow_nested: bool, max_depth: u32, specs: Vec<&str>) -> SpawnContext {
    SpawnContext {
        specs: specs
            .into_iter()
            .map(|n| MiddlewareSpec { name: n.to_string(), config: serde_json::Value::Null })
            .collect(),
        parent_working_directory: "/parent".into(),
        depth: 0,
        max_depth,
        allow_nested,
    }
}

fn message_of(e: nekocode::message::ToolError) -> String {
    e.message()
}

#[test]
fn spawn_unknown_profile_errors() {
    let err = plan_spawn(&catalog_with_explorer_and_heavy(), "nope", &ctx(true, 0, vec![])).unwrap_err();
    assert!(message_of(err).contains("not found"));
}

#[test]
fn spawn_when_parent_disallows_nesting_errors() {
    let err = plan_spawn(&catalog_with_explorer_and_heavy(), "explorer", &ctx(false, 5, vec![])).unwrap_err();
    assert!(message_of(err).contains("does not allow nested"));
}

#[test]
fn spawn_exceeding_max_depth_errors() {
    let err = plan_spawn(&catalog_with_explorer_and_heavy(), "explorer", &ctx(true, 0, vec![])).unwrap_err();
    assert!(message_of(err).contains("max subagent nesting depth"));
}

#[test]
fn spawn_requests_unenabled_middleware_errors() {
    let err = plan_spawn(&catalog_with_explorer_and_heavy(), "heavy", &ctx(true, 1, vec![])).unwrap_err();
    let msg = message_of(err);
    assert!(msg.contains("requests middleware"), "msg: {msg}");
    assert!(msg.contains("shell"), "msg: {msg}");
    assert!(msg.contains("not enabled by parent"), "msg: {msg}");
}

#[test]
fn spawn_selects_parent_middleware_in_parent_order() {
    let plan = plan_spawn(&catalog_with_explorer_and_heavy(), "heavy", &ctx(true, 1, vec!["tool", "shell", "mcp"]))
        .unwrap();
    let names: Vec<String> = plan.selected_specs.iter().map(|s| s.name.clone()).collect();
    assert_eq!(names, vec!["shell".to_string()]);
    assert_eq!(plan.working_directory, "/work");
    assert_eq!(plan.child_depth, 1);
    assert!(plan.allow_nested);
    let plan = plan_spawn(&catalog_with_explorer_and_heavy(), "explorer", &ctx(true, 1, vec!["tool"])).unwrap();
    assert!(plan.selected_specs.is_empty());
    assert_eq!(plan.working_directory, "/parent");
}

#[test]
fn default_max_depth_is_zero() {
    assert_eq!(SubagentConfig::default().max_depth, 0);
}

#[test]
fn last_assistant_text_none_when_no_assistant() {
    let msgs = vec![Message {
        data: MessageType::User(vec![MessageContent::Text { content: "hi".into() }]),
        usage: None,
        created_at: 0,
    }];
    assert_eq!(last_assistant_text(&msgs), None);
}

#[test]
fn last_assistant_text_joins_text_blocks_of_last_assistant() {
    let a = |texts: &[&str]| Message {
        data: MessageType::Assistant(AssistantMessage {
            blocks: texts
                .iter()
                .map(|t| AssistantContentBlock::Text { content: t.to_string(), reasoning_content: None })
                .collect(),
        }),
        usage: None,
        created_at: 0,
    };
    let msgs = vec![a(&["old"]), a(&["one", "two"])];
    assert_eq!(last_assistant_text(&msgs), Some("one\ntwo".to_string()));
    let msgs = vec![a(&["old"]), a(&[])];
    assert_eq!(last_assistant_text(&msgs), None);
}

fn run_result_with_text(text: &str) -> nekocode::registry::SubagentRunResult {
    nekocode::registry::SubagentRunResult {
        usage: nekocode::message::Usage::zero(),
        messages: vec![
            Message { data: MessageType::User(vec![MessageContent::Text { content: "go".into() }]), usage: None, created_at: 0 },
            Message {
                data: MessageType::Assistant(AssistantMessage {
                    blocks: vec![AssistantContentBlock::Text { content: text.into(), reasoning_content: None }],
                }),
                usage: None,
                created_at: 1,
            },
        ],
        finished: true,
    }
}

#[test]
fn read_parameters_default_to_text_only() {
    let p: serde_json::Value = serde_json::from_str("{\"agent_id\": 4}").unwrap();
    assert_eq!(nekocode::spawn::read_params(&p).unwrap(), (4, true));
    let p: serde_json::Value = serde_json::from_str("{\"agent_id\": 4, \"text_only\": false}").unwrap();
    assert_eq!(nekocode::spawn::read_params(&p).unwrap(), (4, false));
    let p: serde_json::Value = serde_json::from_str("{}").unwrap();
    assert_eq!(message_of(nekocode::spawn::read_params(&p).unwrap_err()), "Invalid parameters: Missing or invalid 'agent_id' parameter");
}

#[test]
fn read_snapshot_refuses_unknown_and_running_runs() {
    match read_snapshot(3, true, None) {
        Err(nekocode::message::ToolError::ExecutionError(m)) => assert_eq!(m, "agent 3 not found"),
        other => panic!("unexpected {other:?}"),
    }
    match read_snapshot(3, true, Some(&SubagentSnapshot::Running)) {
        Err(nekocode::message::ToolError::ExecutionError(m)) => assert_eq!(m, "agent 3 is not ready (state: running)"),
        other => panic!("unexpected {other:?}"),
    }
}

#[test]
fn read_snapshot_gives_text_or_messages() {
    let finished = SubagentSnapshot::Finished(run_result_with_text("done"));
    match read_snapshot(1, true, Some(&finished)).unwrap() {
        SubagentRead::Text { status, text } => assert_eq!((status, text.as_str()), ("finished", "done")),
        other => panic!("unexpected {other:?}"),
    }
    let failed = SubagentSnapshot::Error { error: "boom".into(), partial: run_result_with_text("half") };
    match read_snapshot(1, false, Some(&failed)).unwrap() {
        SubagentRead::Messages { status, messages } => {
            assert_eq!(status, "error");
            assert_eq!(messages.len(), 2);
        }
        other => panic!("unexpected {other:?}"),
    }
    let empty = SubagentSnapshot::Finished(nekocode::registry::SubagentRunResult::empty_partial());
    match read_snapshot(1, true, Some(&empty)).unwrap() {
        SubagentRead::Text { text, .. } => assert_eq!(text, ""),
        other => panic!("unexpected {other:?}"),
    }
}
