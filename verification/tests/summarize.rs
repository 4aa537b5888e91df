use devlog::json::parse_json;
use devlog::summary::{format_tool_action, truncate};

fn obj(text: &str) -> Option<devlog::json::JsonVal> {
    Some(parse_json(text).unwrap())
}

#[test]
fn edit_and_multiedit_use_the_file_path() {
    let input = obj(r#"{"file_path":"src/main.rs"}"#);
    assert_eq!(format_tool_action("Edit", &input), "edited src/main.rs");
    assert_eq!(format_tool_action("MultiEdit", &input), "edited src/main.rs");
}

#[test]
fn write_and_read_use_the_path_fallback() {
    let input = obj(r#"{"path":"notes.txt"}"#);
    assert_eq!(format_tool_action("Write", &input), "created notes.txt");
    assert_eq!(format_tool_action("Read", &input), "read notes.txt");
}

#[test]
fn file_path_wins_over_path() {
    let input = obj(r#"{"path":"b","file_path":"a"}"#);
    assert_eq!(format_tool_action("Edit", &input), "edited a");
}

#[test]
fn missing_path_uses_the_placeholder() {
    assert_eq!(format_tool_action("Edit", &None), "edited <unknown>");
    let input = obj(r#"{"other":1}"#);
    assert_eq!(format_tool_action("Read", &input), "read <unknown>");
}

#[test]
fn non_string_path_uses_the_placeholder() {
    let input = obj(r#"{"file_path":42}"#);
    assert_eq!(format_tool_action("Edit", &input), "edited <unknown>");
}

#[test]
fn bash_truncates_the_command_at_fifty() {
    let input = obj(r#"{"command":"echo hi"}"#);
    assert_eq!(format_tool_action("Bash", &input), "ran echo hi");
    let long = "x".repeat(60);
    let input2 = parse_json(&format!("{{\"command\":\"{}\"}}", long)).map(Some).unwrap();
    let expect = format!("ran {}...", "x".repeat(47));
    assert_eq!(format_tool_action("Bash", &input2), expect);
    assert_eq!(format_tool_action("Bash", &None), "ran <command>");
}

#[test]
fn glob_and_grep_truncate_the_pattern_at_forty() {
    let input = obj(r#"{"pattern":"needle"}"#);
    assert_eq!(format_tool_action("Glob", &input), "searched for needle");
    assert_eq!(format_tool_action("Grep", &input), "searched for needle");
    assert_eq!(format_tool_action("Grep", &None), "searched for <pattern>");
    let long = "p".repeat(45);
    let input2 = parse_json(&format!("{{\"pattern\":\"{}\"}}", long)).map(Some).unwrap();
    let expect = format!("searched for {}...", "p".repeat(37));
    assert_eq!(format_tool_action("Glob", &input2), expect);
}

#[test]
fn fixed_text_tools() {
    assert_eq!(format_tool_action("Task", &None), "used subagent");
    assert_eq!(format_tool_action("WebSearch", &None), "used WebSearch");
    assert_eq!(format_tool_action("TodoWrite", &None), "updated todo list");
}

#[test]
fn webfetch_truncates_the_url_at_forty() {
    let input = obj(r#"{"url":"http://example.com"}"#);
    assert_eq!(format_tool_action("WebFetch", &input), "fetched http://example.com");
    assert_eq!(format_tool_action("WebFetch", &None), "fetched <url>");
}

#[test]
fn unknown_tools_are_named() {
    assert_eq!(format_tool_action("Custom", &None), "used Custom");
    assert_eq!(format_tool_action("edit", &None), "used edit");
}

#[test]
fn truncate_keeps_short_strings_unchanged() {
    assert_eq!(truncate("hello", 10), "hello");
    assert_eq!(truncate("hello", 5), "hello");
    assert_eq!(truncate("", 3), "");
}

#[test]
fn truncate_keeps_fitting_strings_even_under_tiny_limits() {
    assert_eq!(truncate("", 0), "");
    assert_eq!(truncate("a", 1), "a");
    assert_eq!(truncate("ab", 2), "ab");
}

#[test]
fn truncate_cuts_and_marks_long_strings() {
    assert_eq!(truncate("hello world!", 8), "hello...");
    assert_eq!(truncate("abcd", 3), "...");
    let out = truncate(&"y".repeat(100), 40);
    assert_eq!(out.chars().count(), 40);
    assert_eq!(out, format!("{}...", "y".repeat(37)));
}
