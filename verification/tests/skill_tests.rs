use std::collections::HashMap;

use nekocode::skill::{
    skill_from_frontmatter, split_frontmatter, validate_compatibility, validate_description,
    validate_name, Frontmatter, Skill, SkillError, SkillSource,
};

/// The frontmatter that the YAML block of a document holds, written out.
fn fm(name: Option<&str>, description: Option<&str>) -> Frontmatter {
    Frontmatter {
        name: name.map(|s| s.to_string()),
        description: description.map(|s| s.to_string()),
        ..Frontmatter::default()
    }
}

fn parse(content: &str, frontmatter: Frontmatter, expected: Option<&str>) -> Result<Skill, SkillError> {
    let (_yaml, body) = split_frontmatter(content)?;
    skill_from_frontmatter(frontmatter, body, expected)
}

#[test]
fn parses_minimal() {
    let s = parse("---\nname: t\ndescription: x\n---\nbody", fm(Some("t"), Some("x")), None).unwrap();
    assert_eq!(s.name, "t");
    assert_eq!(s.description, "x");
    assert!(s.metadata.is_empty());
    assert_eq!(s.body, "body");
    assert!(matches!(s.source, SkillSource::Builtin));
}

#[test]
fn parses_full() {
    let content = "---\nname: pdf-processing\ndescription: Extracts PDFs.\nlicense: Apache-2.0\ncompatibility: Requires Python 3.14+\nmetadata:\n  author: example-org\n  version: \"1.0\"\nallowed-tools: Bash(git:*) Read\n---\nbody";
    let mut metadata = HashMap::new();
    metadata.insert("author".to_string(), "example-org".to_string());
    metadata.insert("version".to_string(), "1.0".to_string());
    let front = Frontmatter {
        name: Some("pdf-processing".into()),
        description: Some("Extracts PDFs.".into()),
        license: Some("Apache-2.0".into()),
        compatibility: Some("Requires Python 3.14+".into()),
        metadata,
        allowed_tools: Some("Bash(git:*) Read".into()),
    };
    let s = parse(content, front, None).unwrap();
    assert_eq!(s.name, "pdf-processing");
    assert_eq!(s.license.as_deref(), Some("Apache-2.0"));
    assert_eq!(s.compatibility.as_deref(), Some("Requires Python 3.14+"));
    assert_eq!(s.metadata.get("author").map(String::as_str), Some("example-org"));
    assert_eq!(s.metadata.get("version").map(String::as_str), Some("1.0"));
    assert_eq!(s.allowed_tools.as_deref(), Some("Bash(git:*) Read"));
}

#[test]
fn rejects_missing_description() {
    let e = parse("---\nname: t\n---\nbody", fm(Some("t"), None), None).unwrap_err().message();
    assert!(e.contains("description"));
}

#[test]
fn rejects_empty_description() {
    let e = parse("---\nname: t\ndescription: '   '\n---\nbody", fm(Some("t"), Some("   ")), None)
        .unwrap_err()
        .message();
    assert!(e.contains("description"));
}

#[test]
fn rejects_long_description() {
    let long = "a".repeat(1025);
    let src = format!("---\nname: t\ndescription: {long}\n---\nbody");
    let e = parse(&src, fm(Some("t"), Some(&long)), None).unwrap_err().message();
    assert!(e.contains("1024"));
}

#[test]
fn rejects_uppercase_name() {
    let e = parse("---\nname: PDF\ndescription: x\n---\nbody", fm(Some("PDF"), Some("x")), None)
        .unwrap_err()
        .message();
    assert!(e.contains("lowercase"));
}

#[test]
fn rejects_leading_hyphen_name() {
    let e = parse("---\nname: -foo\ndescription: x\n---\nbody", fm(Some("-foo"), Some("x")), None)
        .unwrap_err()
        .message();
    assert!(e.contains("hyphen"));
}

#[test]
fn rejects_consecutive_hyphens() {
    let e = parse("---\nname: foo--bar\ndescription: x\n---\nbody", fm(Some("foo--bar"), Some("x")), None)
        .unwrap_err()
        .message();
    assert!(e.contains("consecutive"));
}

#[test]
fn rejects_long_name() {
    let long = "a".repeat(65);
    let src = format!("---\nname: {long}\ndescription: x\n---\nbody");
    let e = parse(&src, fm(Some(&long), Some("x")), None).unwrap_err().message();
    assert!(e.contains("64"));
}

#[test]
fn rejects_long_compatibility() {
    let long = "a".repeat(501);
    let src = format!("---\nname: t\ndescription: x\ncompatibility: {long}\n---\nbody");
    let mut front = fm(Some("t"), Some("x"));
    front.compatibility = Some(long.clone());
    let e = parse(&src, front, None).unwrap_err().message();
    assert!(e.contains("500"));
}

#[test]
fn enforces_name_matches_dir() {
    let e = parse("---\nname: foo\ndescription: x\n---\nbody", fm(Some("foo"), Some("x")), Some("bar"))
        .unwrap_err()
        .message();
    assert!(e.contains("parent directory"));
}

#[test]
fn rejects_no_frontmatter() {
    let e = split_frontmatter("hello").unwrap_err().message();
    assert!(e.contains("frontmatter"));
}

#[test]
fn rejects_unclosed_frontmatter() {
    let e = split_frontmatter("---\nname: t").unwrap_err().message();
    assert!(e.contains("closing"));
}

#[test]
fn split_gives_yaml_and_body() {
    let (yaml, body) = split_frontmatter("---\nname: t\ndescription: x\n---\nbody").unwrap();
    assert_eq!(yaml, "\nname: t\ndescription: x");
    assert_eq!(body, "body");
}

#[test]
fn field_rules_give_exact_messages() {
    assert!(validate_name("pdf-processing").is_ok());
    assert_eq!(validate_name("").unwrap_err().message(), "`name` must be 1-64 characters (was empty)");
    assert_eq!(
        validate_name(&"a".repeat(65)).unwrap_err().message(),
        "`name` must be at most 64 characters (was 65)"
    );
    assert_eq!(validate_description(" \t").unwrap_err(), SkillError::EmptyDescription);
    assert_eq!(validate_compatibility("").unwrap_err(), SkillError::EmptyCompatibility);
    assert!(validate_compatibility("Linux").is_ok());
}
