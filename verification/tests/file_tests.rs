use nekocode::file::{apply_edit, check_edit_strings, count_matches, line_range, replace_all, select_lines, FileConfig, ResolvedFile};
use nekocode::message::ToolError;

fn wd(dir: &str) -> FileConfig {
    FileConfig { working_directory: Some(dir.to_string()) }
}

#[test]
fn absolute_path_is_unchanged() {
    assert_eq!(wd("/srv/app").resolve_path("/etc/hosts"), "/etc/hosts");
}

#[test]
fn relative_path_joined_onto_working_directory() {
    assert_eq!(wd("/srv/app").resolve_path("src/main.rs"), "/srv/app/src/main.rs");
}

#[test]
fn relative_path_without_working_directory_is_relative() {
    assert_eq!(FileConfig::default().resolve_path("src/main.rs"), "src/main.rs");
}

const DIR: &str = "/tmp/nekocode_file_config_sandbox";

#[test]
fn sandbox_allows_descendant() {
    let r = wd(DIR).resolve_for_io("test.txt", Ok(DIR.to_string()));
    match r {
        Ok(ResolvedFile::Sandboxed { base, relative, display }) => {
            assert_eq!(base, DIR);
            assert_eq!(relative, "test.txt");
            assert_eq!(display, "/tmp/nekocode_file_config_sandbox/test.txt");
        }
        other => panic!("expected Ok, got {:?}", other),
    }
}

#[test]
fn sandbox_rejects_absolute_escape() {
    let r = wd(DIR).resolve_for_io("/etc/passwd", Ok(DIR.to_string()));
    assert_eq!(
        r.unwrap_err(),
        "path '/etc/passwd' is outside the working directory '/tmp/nekocode_file_config_sandbox'"
    );
}

#[test]
fn sandbox_rejects_dotdot_traversal() {
    let r = wd(DIR).resolve_for_io("../../etc/passwd", Ok(DIR.to_string()));
    assert_eq!(
        r.unwrap_err(),
        "path '../../etc/passwd' escapes the working directory '/tmp/nekocode_file_config_sandbox'"
    );
}

#[test]
fn sandbox_allows_new_file_in_existing_parent() {
    assert!(wd(DIR).resolve_for_io("new_file.txt", Ok(DIR.to_string())).is_ok());
}

#[test]
fn sandbox_no_working_directory_allows_anything() {
    let r = FileConfig::default().resolve_for_io("/etc/hosts", Err("unused".to_string()));
    match r {
        Ok(f) => assert_eq!(f.display_path(), "/etc/hosts"),
        Err(e) => panic!("expected Ok without sandbox, got {e}"),
    }
}

#[test]
fn sandbox_absolute_path_inside_is_relative_to_base() {
    let r = wd(DIR).resolve_for_io("/tmp/nekocode_file_config_sandbox/a//b/./c.txt", Ok(DIR.to_string())).unwrap();
    match r {
        ResolvedFile::Sandboxed { relative, display, .. } => {
            assert_eq!(relative, "a/b/c.txt");
            assert_eq!(display, "/tmp/nekocode_file_config_sandbox/a/b/c.txt");
        }
        _ => panic!("expected sandboxed"),
    }
    assert!(wd(DIR).resolve_for_io("a/../b.txt", Ok(DIR.to_string())).is_ok());
    assert!(wd(DIR).resolve_for_io("a/../../b.txt", Ok(DIR.to_string())).is_err());
}

#[test]
fn sandbox_reports_uncanonical_working_directory() {
    let r = wd("/missing").resolve_for_io("x", Err("No such file or directory (os error 2)".to_string()));
    assert_eq!(
        r.unwrap_err(),
        "working directory '/missing' cannot be canonicalized: No such file or directory (os error 2)"
    );
}

#[test]
fn line_ranges_select_inclusive_lines() {
    let content = "one\r\ntwo\nthree\nfour\n";
    assert_eq!(select_lines(content, 2, 3), "two\nthree");
    assert_eq!(select_lines(content, 1, 1), "one");
    assert_eq!(select_lines(content, 3, 100), "three\nfour");
    assert_eq!(select_lines(content, 9, 10), "");
}

#[test]
fn line_range_parameters_are_checked() {
    assert!(matches!(line_range(None, None), Ok(None)));
    assert!(matches!(line_range(Some(2), Some(4)), Ok(Some((2, 4)))));
    match line_range(Some(0), Some(4)) {
        Err(ToolError::InvalidParameters(m)) => assert_eq!(
            m,
            "Invalid line range: start_line=0, end_line=4 (both must be >= 1 and end_line >= start_line)"
        ),
        _ => panic!("expected invalid range"),
    }
    match line_range(Some(2), None) {
        Err(ToolError::InvalidParameters(m)) => assert_eq!(m, "start_line and end_line must be provided together"),
        _ => panic!("expected invalid range"),
    }
}

#[test]
fn matching_counts_without_overlap() {
    assert_eq!(count_matches("aaaa", "aa"), 2);
    assert_eq!(count_matches("abc", "x"), 0);
    assert_eq!(count_matches("ab", ""), 3);
    assert_eq!(replace_all("aaaa", "aa", "b"), "bb");
    assert_eq!(replace_all("ab", "", "X"), "XaXbX");
    assert_eq!(replace_all("hello world", "o", "0"), "hell0 w0rld");
}

#[test]
fn edits_replace_once_or_everywhere() {
    assert_eq!(apply_edit("a b a", "b", "c", false, "f.txt").unwrap(), ("a c a".to_string(), 1));
    assert_eq!(apply_edit("a b a", "a", "z", true, "f.txt").unwrap(), ("z b z".to_string(), 2));
    match apply_edit("a b a", "a", "z", false, "f.txt") {
        Err(ToolError::ExecutionError(m)) => assert_eq!(
            m,
            "old_string occurs 2 times in f.txt. Provide more context to make it unique, or set replace_all to true."
        ),
        _ => panic!("expected ambiguity"),
    }
    match apply_edit("abc", "x", "y", false, "f.txt") {
        Err(ToolError::ExecutionError(m)) => assert!(m.starts_with("old_string was not found in f.txt.")),
        _ => panic!("expected not found"),
    }
    assert!(check_edit_strings("same", "same").is_err());
    assert!(check_edit_strings("a", "b").is_ok());
}

#[test]
fn set_title_rejects_empty() {
    let bads = ["{}", "{\"title\": \"\"}", "{\"title\": \"   \"}", "{\"title\": 3}"];
    for bad in bads {
        let v: serde_json::Value = serde_json::from_str(bad).unwrap();
        let err = nekocode::file::SetTitleTool::title_param(&v).unwrap_err();
        assert!(matches!(err, nekocode::message::ToolError::InvalidParameters(_)), "got {err:?}");
    }
}

#[test]
fn set_title_trims_the_title() {
    let v: serde_json::Value = serde_json::from_str("{\"title\": \"  Fix the parser \\n\"}").unwrap();
    assert_eq!(nekocode::file::SetTitleTool::title_param(&v).unwrap(), "Fix the parser");
}

fn json(text: &str) -> serde_json::Value {
    serde_json::from_str(text).unwrap()
}

fn invalid_text(e: ToolError) -> String {
    match e {
        ToolError::InvalidParameters(m) => m,
        ToolError::ExecutionError(m) => panic!("expected an invalid parameter, got an execution error: {m}"),
    }
}

#[test]
fn edit_parameters_are_read_and_checked() {
    let (o, n, all) = nekocode::file::EditFileTool::edit_params(&json(
        "{\"old_string\": \"a\", \"new_string\": \"b\", \"replace_all\": true}",
    ))
    .unwrap();
    assert_eq!((o.as_str(), n.as_str(), all), ("a", "b", true));
    let (_, _, all) =
        nekocode::file::EditFileTool::edit_params(&json("{\"old_string\": \"a\", \"new_string\": \"b\"}")).unwrap();
    assert!(!all);
    assert_eq!(
        invalid_text(nekocode::file::EditFileTool::edit_params(&json("{\"new_string\": \"b\"}")).unwrap_err()),
        "Missing 'old_string' parameter"
    );
    assert_eq!(
        invalid_text(
            nekocode::file::EditFileTool::edit_params(&json("{\"old_string\": \"same\", \"new_string\": \"same\"}"))
                .unwrap_err()
        ),
        "old_string and new_string must differ"
    );
}

#[test]
fn read_view_selects_the_requested_lines() {
    let content = "one\ntwo\nthree\nfour";
    let all = nekocode::file::ReadFileTool::view_content(&json("{\"path\": \"f\"}"), content).unwrap();
    assert_eq!(all, content);
    let some = nekocode::file::ReadFileTool::view_content(
        &json("{\"path\": \"f\", \"start_line\": 2, \"end_line\": 3}"),
        content,
    )
    .unwrap();
    assert_eq!(some, "two\nthree");
    assert!(nekocode::file::ReadFileTool::view_content(&json("{\"path\": \"f\", \"start_line\": 2}"), content).is_err());
}

#[test]
fn write_content_parameter_is_required() {
    assert_eq!(nekocode::file::WriteFileTool::content_param(&json("{\"content\": \"x\"}")).unwrap(), "x");
    assert_eq!(
        invalid_text(nekocode::file::WriteFileTool::content_param(&json("{}")).unwrap_err()),
        "Missing 'content' parameter"
    );
}

#[test]
fn path_parameter_is_resolved_in_the_sandbox() {
    let config = wd("/srv/app");
    let resolved =
        nekocode::file::parse_path(&json("{\"path\": \"src/main.rs\"}"), &config, Ok("/srv/app".to_string())).unwrap();
    assert_eq!(resolved.display_path(), "/srv/app/src/main.rs");
    assert_eq!(
        invalid_text(nekocode::file::parse_path(&json("{}"), &config, Ok("/srv/app".to_string())).unwrap_err()),
        "Missing 'path' parameter"
    );
    assert!(nekocode::file::parse_path(&json("{\"path\": \"../etc\"}"), &config, Ok("/srv/app".to_string())).is_err());
}
