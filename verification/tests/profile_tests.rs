use nekocode::profile::{ProfileCatalog, ProfileError, ProfileFile, SubagentProfile};

fn profile(name: &str, middlewares: &[&str]) -> SubagentProfile {
    SubagentProfile {
        name: name.to_string(),
        system_prompt: None,
        working_directory: None,
        allow_nested: false,
        middlewares: middlewares.iter().map(|s| s.to_string()).collect(),
    }
}

fn file(path: &str, agents: Vec<SubagentProfile>) -> ProfileFile {
    ProfileFile { path: path.to_string(), agents }
}

#[test]
fn load_missing_global_returns_empty_catalog() {
    let cat = ProfileCatalog::load(None, None).expect("missing global is ok");
    assert!(cat.profiles.is_empty());
}

#[test]
fn load_global_only() {
    let g = file("/g/agents.toml", vec![profile("explorer", &["shell", "tool"])]);
    let cat = ProfileCatalog::load(Some(g), None).unwrap();
    let p = cat.get("explorer").unwrap();
    assert_eq!(p.middlewares, vec!["shell".to_string(), "tool".to_string()]);
    assert!(!p.allow_nested);
}

#[test]
fn workspace_wholly_replaces_same_named_global() {
    let mut gp = profile("explorer", &["shell", "tool"]);
    gp.system_prompt = Some("global prompt".to_string());
    let mut wp = profile("explorer", &["tool"]);
    wp.allow_nested = true;
    let cat = ProfileCatalog::load(
        Some(file("/g/agents.toml", vec![gp])),
        Some(file("/w/.nekocode/agents.toml", vec![wp])),
    )
    .unwrap();
    let p = cat.get("explorer").unwrap();
    assert_eq!(p.system_prompt, None);
    assert_eq!(p.middlewares, vec!["tool".to_string()]);
    assert!(p.allow_nested);
    assert_eq!(cat.profiles.len(), 1);
}

#[test]
fn workspace_adds_distinct_names() {
    let cat = ProfileCatalog::load(
        Some(file("/g/agents.toml", vec![profile("explorer", &["shell"])])),
        Some(file("/w/agents.toml", vec![profile("critic", &["tool"])])),
    )
    .unwrap();
    assert!(cat.get("explorer").is_ok());
    assert!(cat.get("critic").is_ok());
}

#[test]
fn duplicate_name_in_single_file_is_error() {
    let g = file(
        "/g/agents.toml",
        vec![profile("explorer", &["shell"]), profile("explorer", &["tool"])],
    );
    let err = ProfileCatalog::load(Some(g), None).expect_err("duplicate should error");
    assert!(err.message().contains("duplicate"));
    assert_eq!(
        err,
        ProfileError::DuplicateName { name: "explorer".to_string(), path: "/g/agents.toml".to_string() }
    );
}

#[test]
fn empty_name_is_error() {
    let g = file("/g/agents.toml", vec![profile("", &["shell"])]);
    let err = ProfileCatalog::load(Some(g), None).expect_err("empty name should error");
    assert!(err.message().contains("empty"));
    assert_eq!(err.message(), "profile with empty name in /g/agents.toml");
}

#[test]
fn get_unknown_returns_error() {
    let cat = ProfileCatalog::empty();
    let err = cat.get("nope").expect_err("unknown profile");
    assert!(err.message().contains("not found"));
    assert_eq!(err.message(), "profile 'nope' not found");
}

#[test]
fn global_file_is_checked_before_workspace_file() {
    let g = file("/g/agents.toml", vec![profile("", &[])]);
    let w = file("/w/agents.toml", vec![profile("a", &[]), profile("a", &[])]);
    let err = ProfileCatalog::load(Some(g), Some(w)).unwrap_err();
    assert_eq!(err, ProfileError::EmptyName { path: "/g/agents.toml".to_string() });
}
