use devlog::model::ConversationEntry;
use devlog::output::{DevlogOutput, GitInfo, deserialize_record, serialize_record};

fn sample_record() -> DevlogOutput {
    DevlogOutput {
        schema_version: "1.0".to_string(),
        session_id: "abc123".to_string(),
        timestamp: "2024-05-01T10:00:00+00:00".to_string(),
        machine_id: "laptop".to_string(),
        project_dir: "/home/dev/proj".to_string(),
        git: Some(GitInfo {
            remote: Some("git@example.com:dev/proj.git".to_string()),
            branch: "main".to_string(),
            commit: "deadbeef".to_string(),
        }),
        conversation: vec![
            ConversationEntry::User {
                timestamp: Some("2024-05-01T10:00:00+00:00".to_string()),
                content: "fix the bug".to_string(),
            },
            ConversationEntry::ToolSummary {
                actions: vec!["read a.rs".to_string(), "edited a.rs".to_string()],
            },
            ConversationEntry::Assistant { timestamp: None, content: "Fixed it".to_string() },
        ],
    }
}

#[test]
fn serializing_then_deserializing_yields_the_original() {
    let record = sample_record();
    let text = serialize_record(&record);
    let back = deserialize_record(&text).unwrap();
    assert_eq!(back, record);
}

#[test]
fn round_trip_without_git_and_with_special_characters() {
    let record = DevlogOutput {
        schema_version: "1.0".to_string(),
        session_id: "s\"quote\\slash".to_string(),
        timestamp: "".to_string(),
        machine_id: "m".to_string(),
        project_dir: "c:\\work\\proj".to_string(),
        git: None,
        conversation: vec![ConversationEntry::User {
            timestamp: None,
            content: "line one\nline two\ttabbed".to_string(),
        }],
    };
    let text = serialize_record(&record);
    let back = deserialize_record(&text).unwrap();
    assert_eq!(back, record);
}

#[test]
fn handwritten_json_decodes_to_the_expected_record() {
    let text = r#"{
        "schema_version": "1.0",
        "session_id": "xyz",
        "timestamp": "2024-01-01T00:00:00+00:00",
        "machine_id": "desk",
        "project_dir": "/p",
        "git": null,
        "conversation": [
            {"type": "user", "timestamp": null, "content": "hello"},
            {"type": "tool_summary", "actions": ["ran ls"]},
            {"type": "assistant", "content": "hi", "timestamp": "2024-01-01T00:00:01+00:00"}
        ]
    }"#;
    let record = deserialize_record(text).unwrap();
    assert_eq!(record.session_id, "xyz");
    assert_eq!(record.machine_id, "desk");
    assert!(record.git.is_none());
    assert_eq!(
        record.conversation,
        vec![
            ConversationEntry::User { timestamp: None, content: "hello".to_string() },
            ConversationEntry::ToolSummary { actions: vec!["ran ls".to_string()] },
            ConversationEntry::Assistant {
                timestamp: Some("2024-01-01T00:00:01+00:00".to_string()),
                content: "hi".to_string(),
            },
        ]
    );
}

#[test]
fn records_with_missing_or_misshapen_fields_are_refused() {
    assert!(deserialize_record("not json").is_none());
    assert!(deserialize_record(r#"{"schema_version":"1.0"}"#).is_none());
    let bad_entry = r#"{
        "schema_version": "1.0", "session_id": "x", "timestamp": "t",
        "machine_id": "m", "project_dir": "/p", "git": null,
        "conversation": [{"type": "party"}]
    }"#;
    assert!(deserialize_record(bad_entry).is_none());
    let bad_actions = r#"{
        "schema_version": "1.0", "session_id": "x", "timestamp": "t",
        "machine_id": "m", "project_dir": "/p", "git": null,
        "conversation": [{"type": "tool_summary", "actions": [1]}]
    }"#;
    assert!(deserialize_record(bad_actions).is_none());
}

#[test]
fn serialized_text_is_real_json_with_the_expected_members() {
    let record = sample_record();
    let text = serialize_record(&record);
    let value: serde_json::Value = serde_json::from_str(&text).unwrap();
    assert_eq!(value["schema_version"], "1.0");
    assert_eq!(value["machine_id"], "laptop");
    assert_eq!(value["conversation"][0]["type"], "user");
    assert_eq!(value["conversation"][1]["type"], "tool_summary");
    assert_eq!(value["conversation"][2]["type"], "assistant");
    assert_eq!(value["git"]["branch"], "main");
}

#[test]
fn the_parser_refuses_texts_nested_one_hundred_twenty_eight_deep() {
    let shallow = format!("{}{}", "[".repeat(127), "]".repeat(127));
    assert!(devlog::json::parse_json(&shallow).is_some());
    let deep = format!("{}{}", "[".repeat(128), "]".repeat(128));
    assert!(devlog::json::parse_json(&deep).is_none());
}
