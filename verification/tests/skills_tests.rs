use std::collections::HashMap;

use nekocode::message::ToolError;
use nekocode::skill::{Skill, SkillSource};
use nekocode::skills::{
    catalog_prompt, enabled_skill_indices, name_before, resolve_within, ReadSkillFileTool, ReadSkillTool,
};

fn make_skill(name: &str, root: Option<&str>, body: &str) -> Skill {
    Skill {
        name: name.into(),
        description: "x".into(),
        license: None,
        compatibility: None,
        metadata: HashMap::new(),
        allowed_tools: None,
        body: body.into(),
        source: SkillSource::Builtin,
        root: root.map(|r| r.to_string()),
    }
}

fn invalid(e: ToolError) -> String {
    match e {
        ToolError::InvalidParameters(m) => m,
        ToolError::ExecutionError(m) => panic!("expected an invalid parameter, got an execution error: {m}"),
    }
}

fn params(pairs: &[(&str, &str)]) -> serde_json::Value {
    let mut m = serde_json::Map::new();
    for (k, v) in pairs {
        m.insert(k.to_string(), serde_json::Value::String(v.to_string()));
    }
    serde_json::Value::Object(m)
}

#[test]
fn read_skill_returns_body() {
    let tool = ReadSkillTool { skills: vec![make_skill("demo", None, "Hello body.")] };
    let out = tool.requested(&params(&[("name", "demo")])).unwrap();
    assert_eq!(out.body, "Hello body.");
    assert_eq!(out.name, "demo");
}

#[test]
fn read_skill_unknown_name() {
    let tool = ReadSkillTool { skills: vec![] };
    let err = tool.requested(&params(&[("name", "nope")])).unwrap_err();
    assert!(matches!(err, ToolError::InvalidParameters(_)));
}

#[test]
fn read_skill_missing_name_parameter() {
    let tool = ReadSkillTool { skills: vec![make_skill("demo", None, "")] };
    let err = tool.requested(&params(&[])).unwrap_err();
    assert_eq!(invalid(err), "Missing 'name' parameter");
}

#[test]
fn read_skill_file_reads_under_root() {
    let tool = ReadSkillFileTool { skills: vec![make_skill("demo", Some("/skills/demo"), "")] };
    let (root, target) = tool.requested(&params(&[("skill", "demo"), ("path", "references/a.md")])).unwrap();
    assert_eq!(root, "/skills/demo");
    assert_eq!(target, "/skills/demo/references/a.md");
    let resolved = resolve_within(
        &root,
        &target,
        Ok("/skills/demo".to_string()),
        Ok("/skills/demo/references/a.md".to_string()),
    );
    assert_eq!(resolved, Ok("/skills/demo/references/a.md".to_string()));
}

#[test]
fn read_skill_file_blocks_traversal() {
    let tool = ReadSkillFileTool { skills: vec![make_skill("demo", Some("/tmp/root"), "")] };
    let (root, target) = tool.requested(&params(&[("skill", "demo"), ("path", "../outside_1.txt")])).unwrap();
    assert_eq!(target, "/tmp/root/../outside_1.txt");
    let err = resolve_within(&root, &target, Ok("/tmp/root".to_string()), Ok("/tmp/outside_1.txt".to_string()))
        .unwrap_err();
    assert_eq!(err, "Path escapes skill root: /tmp/outside_1.txt is not inside /tmp/root");
}

#[test]
fn read_skill_file_rejects_builtin() {
    let tool = ReadSkillFileTool { skills: vec![make_skill("demo", None, "")] };
    let err = tool.requested(&params(&[("skill", "demo"), ("path", "x")])).unwrap_err();
    assert!(matches!(err, ToolError::ExecutionError(_)));
}

#[test]
fn read_skill_file_unknown_and_missing_parameters() {
    let tool = ReadSkillFileTool { skills: vec![make_skill("demo", Some("/s"), "")] };
    assert_eq!(invalid(tool.requested(&params(&[("skill", "nope"), ("path", "x")])).unwrap_err()), "Unknown skill 'nope'.");
    assert_eq!(invalid(tool.requested(&params(&[("path", "x")])).unwrap_err()), "Missing 'skill' parameter");
    assert_eq!(invalid(tool.requested(&params(&[("skill", "demo")])).unwrap_err()), "Missing 'path' parameter");
}

#[test]
fn resolve_within_reports_canonicalization_failures() {
    assert_eq!(
        resolve_within("/r", "/r/a", Err("gone".into()), Ok("/r/a".into())),
        Err("Failed to canonicalize skill root /r: gone".to_string())
    );
    assert_eq!(
        resolve_within("/r", "/r/a", Ok("/r".into()), Err("missing".into())),
        Err("File not found inside skill root: /r/a (missing)".to_string())
    );
    // The root itself lies inside the root.
    assert_eq!(resolve_within("/r", "/r", Ok("/r".into()), Ok("/r".into())), Ok("/r".to_string()));
    // A sibling that shares a prefix of characters is outside.
    assert!(resolve_within("/r", "/rx", Ok("/r".into()), Ok("/rx".into())).is_err());
}

#[test]
fn enabled_skills_sorted_by_name_and_unknown_dropped() {
    let skills = vec![make_skill("zeta", None, ""), make_skill("alpha", None, ""), make_skill("mid", None, "")];
    let enabled = vec!["zeta".to_string(), "ghost".to_string(), "alpha".to_string(), "zeta".to_string()];
    let idx = enabled_skill_indices(&skills, &enabled);
    assert_eq!(idx, vec![1, 0]);
    assert!(enabled_skill_indices(&skills, &vec![]).is_empty());
}

#[test]
fn enabled_skill_later_load_wins() {
    let skills = vec![make_skill("demo", None, "old"), make_skill("demo", None, "new")];
    let idx = enabled_skill_indices(&skills, &vec!["demo".to_string()]);
    assert_eq!(idx, vec![1]);
}

#[test]
fn name_order_is_string_order() {
    assert!(name_before("a", "b"));
    assert!(name_before("ab", "abc"));
    assert!(!name_before("abc", "ab"));
    assert!(!name_before("same", "same"));
    assert!(name_before("Z", "a"));
}

const INTRO: &str = "The following skills are available. Each entry is a short catalog summary; the full instructions live in the skill's SKILL.md body and bundled files. BEFORE acting on a task that any listed skill is relevant for, call `read_skill` with that skill's name to load its full instructions. Use `read_skill_file` to read referenced files under the skill's root (e.g. references/REFERENCE.md, scripts/extract.py).\n\n";

#[test]
fn catalog_lists_entries_and_keeps_existing_prompt() {
    let skills = vec![make_skill("b", Some("/s/b"), ""), make_skill("a", None, "")];
    let idx = vec![1usize, 0usize];
    let expected_body = "- name: a\n  description: x\n- name: b\n  description: x\n  root: /s/b";
    assert_eq!(catalog_prompt(&skills, &idx, None), format!("{INTRO}{expected_body}"));
    assert_eq!(catalog_prompt(&skills, &idx, Some(String::new())), format!("{INTRO}{expected_body}"));
    assert_eq!(
        catalog_prompt(&skills, &idx, Some("Be brief.".into())),
        format!("{INTRO}{expected_body}\n\nBe brief.")
    );
}

#[test]
fn a_skill_on_disk_replaces_the_builtin_of_its_name() {
    let builtins = vec![make_skill("demo", None, "builtin"), make_skill("other", None, "b2")];
    let user = vec![make_skill("demo", Some("/s/demo"), "on disk")];
    let all = nekocode::skills::loaded_skills(builtins, user);
    assert_eq!(all.len(), 3);
    let tool = ReadSkillTool { skills: all };
    assert_eq!(tool.lookup("demo").unwrap().body, "on disk");
    assert_eq!(tool.lookup("other").unwrap().body, "b2");
}
