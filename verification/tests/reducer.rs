use devlog::decode::{decode_line, parse_transcript};
use devlog::model::ConversationEntry;
use devlog::reduce::filter_to_conversation;

fn lines(texts: &[&str]) -> Vec<String> {
    texts.iter().map(|t| t.to_string()).collect()
}

#[test]
fn tool_batch_appears_between_the_bracketing_turns() {
    let input = lines(&[
        r#"{"type":"user","message":"fix the bug"}"#,
        r#"{"type":"tool_use","tool":"Read","input":{"path":"a.rs"}}"#,
        r#"{"type":"tool_use","tool":"Edit","input":{"file_path":"a.rs"}}"#,
        r#"{"type":"assistant","message":"Fixed it"}"#,
    ]);
    let (entries, warnings) = parse_transcript(&input);
    assert_eq!(entries.len(), 4);
    assert!(warnings.is_empty());
    let conversation = filter_to_conversation(entries);
    assert_eq!(
        conversation,
        vec![
            ConversationEntry::User { timestamp: None, content: "fix the bug".to_string() },
            ConversationEntry::ToolSummary {
                actions: vec!["read a.rs".to_string(), "edited a.rs".to_string()],
            },
            ConversationEntry::Assistant { timestamp: None, content: "Fixed it".to_string() },
        ]
    );
}

#[test]
fn malformed_line_is_skipped_with_a_warning_and_order_is_kept() {
    let input = lines(&[
        r#"{"type":"user","message":"hello"}"#,
        r#"{not json at all"#,
        r#"{"type":"assistant","message":"world"}"#,
    ]);
    let (entries, warnings) = parse_transcript(&input);
    assert_eq!(entries.len(), 2);
    assert_eq!(warnings, vec![2]);
    let conversation = filter_to_conversation(entries);
    assert_eq!(
        conversation,
        vec![
            ConversationEntry::User { timestamp: None, content: "hello".to_string() },
            ConversationEntry::Assistant { timestamp: None, content: "world".to_string() },
        ]
    );
}

#[test]
fn blank_lines_are_skipped_silently() {
    let input = lines(&["", "   ", r#"{"type":"user","message":"hi"}"#, "\t", "\u{a0}\u{3000}"]);
    let (entries, warnings) = parse_transcript(&input);
    assert_eq!(entries.len(), 1);
    assert!(warnings.is_empty());
}

#[test]
fn empty_content_turns_are_dropped() {
    let input = lines(&[
        r#"{"type":"user","message":""}"#,
        r#"{"type":"assistant","message":"reply"}"#,
    ]);
    let (entries, _) = parse_transcript(&input);
    let conversation = filter_to_conversation(entries);
    assert_eq!(
        conversation,
        vec![ConversationEntry::Assistant { timestamp: None, content: "reply".to_string() }]
    );
}

#[test]
fn trailing_tools_are_flushed_at_the_end() {
    let input = lines(&[
        r#"{"type":"user","message":"go"}"#,
        r#"{"type":"tool_use","tool":"Bash","input":{"command":"ls"}}"#,
    ]);
    let (entries, _) = parse_transcript(&input);
    let conversation = filter_to_conversation(entries);
    assert_eq!(
        conversation,
        vec![
            ConversationEntry::User { timestamp: None, content: "go".to_string() },
            ConversationEntry::ToolSummary { actions: vec!["ran ls".to_string()] },
        ]
    );
}

#[test]
fn inline_assistant_tools_accumulate_for_the_next_flush() {
    let input = lines(&[
        r#"{"type":"assistant","message":{"content":"done","tool_use":[{"name":"Write","input":{"file_path":"b.rs"}}]}}"#,
        r#"{"type":"user","message":"thanks"}"#,
    ]);
    let (entries, _) = parse_transcript(&input);
    let conversation = filter_to_conversation(entries);
    assert_eq!(
        conversation,
        vec![
            ConversationEntry::Assistant { timestamp: None, content: "done".to_string() },
            ConversationEntry::ToolSummary { actions: vec!["created b.rs".to_string()] },
            ConversationEntry::User { timestamp: None, content: "thanks".to_string() },
        ]
    );
}

#[test]
fn tool_results_and_unknown_types_are_ignored() {
    let input = lines(&[
        r#"{"type":"tool_result","message":"noise"}"#,
        r#"{"type":"system","message":"noise"}"#,
        r#"{"type":"user","message":"only this"}"#,
    ]);
    let (entries, _) = parse_transcript(&input);
    let conversation = filter_to_conversation(entries);
    assert_eq!(
        conversation,
        vec![ConversationEntry::User { timestamp: None, content: "only this".to_string() }]
    );
}

#[test]
fn no_tool_summary_is_ever_empty_and_none_are_adjacent() {
    let input = lines(&[
        r#"{"type":"user","message":"a"}"#,
        r#"{"type":"tool_use","tool":"Read","input":{"path":"x"}}"#,
        r#"{"type":"user","message":"b"}"#,
        r#"{"type":"tool_use","tool":"Read","input":{"path":"y"}}"#,
        r#"{"type":"tool_use","tool":"Read","input":{"path":"z"}}"#,
        r#"{"type":"assistant","message":"c"}"#,
    ]);
    let (entries, _) = parse_transcript(&input);
    let conversation = filter_to_conversation(entries);
    for (i, entry) in conversation.iter().enumerate() {
        if let ConversationEntry::ToolSummary { actions } = entry {
            assert!(!actions.is_empty());
            if i + 1 < conversation.len() {
                assert!(!matches!(conversation[i + 1], ConversationEntry::ToolSummary { .. }));
            }
        }
    }
}

#[test]
fn rerunning_the_reducer_yields_identical_output() {
    let input = lines(&[
        r#"{"type":"user","message":"q","timestamp":"2024-05-01T10:00:00Z"}"#,
        r#"{"type":"tool_use","tool":"Grep","input":{"pattern":"needle"}}"#,
        r#"{"type":"assistant","message":"a"}"#,
    ]);
    let (entries1, _) = parse_transcript(&input);
    let (entries2, _) = parse_transcript(&input);
    let first = filter_to_conversation(entries1);
    let second = filter_to_conversation(entries2);
    assert_eq!(first, second);
}

#[test]
fn timestamps_are_carried_onto_turns() {
    let entry =
        decode_line(r#"{"type":"user","message":"hi","timestamp":"2024-05-01T10:00:00Z"}"#)
            .unwrap();
    let conversation = filter_to_conversation(vec![entry]);
    assert_eq!(
        conversation,
        vec![ConversationEntry::User {
            timestamp: Some("2024-05-01T10:00:00Z".to_string()),
            content: "hi".to_string(),
        }]
    );
}

#[test]
fn nameless_tool_use_entries_are_ignored() {
    let input = lines(&[
        r#"{"type":"user","message":"go"}"#,
        r#"{"type":"tool_use","input":{"command":"ls"}}"#,
    ]);
    let (entries, _) = parse_transcript(&input);
    let conversation = filter_to_conversation(entries);
    assert_eq!(
        conversation,
        vec![ConversationEntry::User { timestamp: None, content: "go".to_string() }]
    );
}
