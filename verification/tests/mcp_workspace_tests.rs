use nekocode::mcp::{block_data, extract_last_event_data};
use nekocode::message::ToolError;
use nekocode::profile::workspace_agents_toml_path;
use nekocode::spawn::{parse_agent_id, parse_agent_ids, parse_optional_agent_ids};
use nekocode::workspace::dedup_plan;

fn invalid(e: ToolError) -> String {
    match e {
        ToolError::InvalidParameters(m) => m,
        ToolError::ExecutionError(m) => panic!("expected an invalid parameter, got an execution error: {m}"),
    }
}

#[test]
fn last_data_event_is_the_answer() {
    let text = "event: message\ndata: {\"id\":1}\n\ndata: {\"id\":2,\ndata: \"ok\":true}\n\n: keep-alive\n\n";
    let v = extract_last_event_data(text).unwrap();
    assert_eq!(v["id"], serde_json::Value::from(2u64));
    assert_eq!(v["ok"], serde_json::Value::Bool(true));
}

#[test]
fn reply_without_data_is_refused() {
    assert_eq!(
        extract_last_event_data(": ping\n\nevent: x\n\n").unwrap_err(),
        "MCP HTTP SSE stream had no data event"
    );
    assert_eq!(extract_last_event_data("").unwrap_err(), "MCP HTTP SSE stream had no data event");
}

#[test]
fn reply_with_bad_json_is_refused() {
    assert_eq!(extract_last_event_data("data: {not json\n\n").unwrap_err(), "MCP HTTP SSE: bad JSON in data event");
}

#[test]
fn block_data_joins_payload_lines_trimmed() {
    assert_eq!(block_data("id: 3\ndata:  a \ndata:b\nretry: 5"), "a\nb");
    assert_eq!(block_data("event: x"), "");
}

#[test]
fn agent_id_parameter() {
    let ok: serde_json::Value = serde_json::from_str("{\"agent_id\": 7}").unwrap();
    assert_eq!(parse_agent_id(&ok).unwrap(), 7);
    let bad: serde_json::Value = serde_json::from_str("{\"agent_id\": \"7\"}").unwrap();
    assert_eq!(invalid(parse_agent_id(&bad).unwrap_err()), "Missing or invalid 'agent_id' parameter");
}

#[test]
fn agent_ids_parameter() {
    let ok: serde_json::Value = serde_json::from_str("{\"agent_ids\": [3, 1, 3]}").unwrap();
    assert_eq!(parse_agent_ids(&ok).unwrap(), vec![3, 1, 3]);
    let missing: serde_json::Value = serde_json::from_str("{}").unwrap();
    assert_eq!(invalid(parse_agent_ids(&missing).unwrap_err()), "Missing 'agent_ids' array parameter");
    let empty: serde_json::Value = serde_json::from_str("{\"agent_ids\": []}").unwrap();
    assert_eq!(invalid(parse_agent_ids(&empty).unwrap_err()), "'agent_ids' must be a non-empty array");
    let mixed: serde_json::Value = serde_json::from_str("{\"agent_ids\": [1, -2]}").unwrap();
    assert_eq!(invalid(parse_agent_ids(&mixed).unwrap_err()), "'agent_ids' must contain integers");
}

#[test]
fn workspace_profile_file_path() {
    assert_eq!(workspace_agents_toml_path("/home/u/proj"), "/home/u/proj/.nekocode/agents.toml");
}

#[test]
fn duplicate_workspaces_fold_into_first() {
    let rows = vec![
        (1u64, "/a".to_string()),
        (2u64, "/b".to_string()),
        (3u64, "/a".to_string()),
        (4u64, "/a".to_string()),
        (5u64, "/b".to_string()),
        (6u64, "/c".to_string()),
    ];
    assert_eq!(dedup_plan(&rows), vec![(3, 1), (4, 1), (5, 2)]);
    assert!(dedup_plan(&vec![]).is_empty());
}

#[test]
fn optional_agent_ids_parameter() {
    let absent: serde_json::Value = serde_json::from_str("{\"timeout\": 1}").unwrap();
    assert_eq!(parse_optional_agent_ids(&absent).unwrap(), None);
    let empty: serde_json::Value = serde_json::from_str("{\"agent_ids\": []}").unwrap();
    assert_eq!(parse_optional_agent_ids(&empty).unwrap(), Some(vec![]));
    let some: serde_json::Value = serde_json::from_str("{\"agent_ids\": [2, 5]}").unwrap();
    assert_eq!(parse_optional_agent_ids(&some).unwrap(), Some(vec![2, 5]));
    let bad: serde_json::Value = serde_json::from_str("{\"agent_ids\": [2, \"x\"]}").unwrap();
    assert_eq!(invalid(parse_optional_agent_ids(&bad).unwrap_err()), "'agent_ids' must contain integers");
}
