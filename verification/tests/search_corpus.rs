use devlog::clock::parse_rfc3339_millis;
use devlog::model::ConversationEntry;
use devlog::output::{DevlogOutput, serialize_record};
use devlog::search::{CorpusFile, SearchScope, create_snippet, search_corpus};

fn record(timestamp: &str, conversation: Vec<ConversationEntry>) -> DevlogOutput {
    DevlogOutput {
        schema_version: "1.0".to_string(),
        session_id: format!("sess-{}", timestamp),
        timestamp: timestamp.to_string(),
        machine_id: "m1".to_string(),
        project_dir: "/p".to_string(),
        git: None,
        conversation,
    }
}

fn corpus_file(machine: &str, project: &str, name: &str, rec: &DevlogOutput) -> CorpusFile {
    CorpusFile {
        machine: machine.to_string(),
        project: project.to_string(),
        file_name: name.to_string(),
        text: serialize_record(rec),
    }
}

fn user(content: &str) -> ConversationEntry {
    ConversationEntry::User { timestamp: None, content: content.to_string() }
}

fn mixed_conversation() -> Vec<ConversationEntry> {
    vec![
        ConversationEntry::User { timestamp: None, content: "Find the needle".to_string() },
        ConversationEntry::Assistant { timestamp: None, content: "a needle appears".to_string() },
        ConversationEntry::ToolSummary { actions: vec!["ran grep needle".to_string()] },
    ]
}

#[test]
fn prompts_only_never_returns_assistant_or_tool_results() {
    let rec = record("2024-01-01T00:00:00+00:00", mixed_conversation());
    let files = vec![corpus_file("m1", "proja", "f.json", &rec)];
    let results = search_corpus(&files, "needle", SearchScope::PromptsOnly, None, 10);
    assert_eq!(results.len(), 1);
    for r in &results {
        assert_eq!(r.entry_type, "user");
    }
}

#[test]
fn conversations_scope_includes_assistant_but_not_tools() {
    let rec = record("2024-01-01T00:00:00+00:00", mixed_conversation());
    let files = vec![corpus_file("m1", "proja", "f.json", &rec)];
    let results = search_corpus(&files, "needle", SearchScope::Conversations, None, 10);
    let kinds: Vec<&str> = results.iter().map(|r| r.entry_type.as_str()).collect();
    assert_eq!(kinds, vec!["user", "assistant"]);
}

#[test]
fn everything_scope_matches_tool_summaries_too() {
    let rec = record("2024-01-01T00:00:00+00:00", mixed_conversation());
    let files = vec![corpus_file("m1", "proja", "f.json", &rec)];
    let results = search_corpus(&files, "needle", SearchScope::Everything, None, 10);
    let kinds: Vec<&str> = results.iter().map(|r| r.entry_type.as_str()).collect();
    assert_eq!(kinds, vec!["user", "assistant", "tool"]);
    assert_eq!(results[2].snippet, "ran grep needle");
}

#[test]
fn matching_is_case_insensitive_and_fills_the_result() {
    let rec = record("2024-02-02T00:00:00+00:00", mixed_conversation());
    let files = vec![corpus_file("big-box", "proj", "s.json", &rec)];
    let results = search_corpus(&files, "NEEDLE", SearchScope::PromptsOnly, None, 10);
    assert_eq!(results.len(), 1);
    let r = &results[0];
    assert_eq!(r.machine, "big-box");
    assert_eq!(r.project, "proj");
    assert_eq!(r.session_file, "s.json");
    assert_eq!(r.session_id, "sess-2024-02-02T00:00:00+00:00");
    assert_eq!(r.timestamp, "2024-02-02T00:00:00+00:00");
    assert_eq!(r.query, "NEEDLE");
    assert_eq!(r.snippet, "Find the needle");
}

#[test]
fn results_come_newest_first() {
    let old = record("2024-01-01T00:00:00+00:00", vec![user("needle old")]);
    let new = record("2024-03-01T00:00:00+00:00", vec![user("needle new")]);
    let files = vec![
        corpus_file("m1", "proja", "old.json", &old),
        corpus_file("m1", "proja", "new.json", &new),
    ];
    let results = search_corpus(&files, "needle", SearchScope::PromptsOnly, None, 10);
    assert_eq!(results.len(), 2);
    assert_eq!(results[0].snippet, "needle new");
    assert_eq!(results[1].snippet, "needle old");
}

#[test]
fn limit_zero_yields_no_results_and_limit_caps_the_scan() {
    let rec = record("2024-01-01T00:00:00+00:00", vec![user("needle a"), user("needle b")]);
    let files = vec![corpus_file("m1", "proja", "f.json", &rec)];
    assert!(search_corpus(&files, "needle", SearchScope::PromptsOnly, None, 0).is_empty());
    let one = search_corpus(&files, "needle", SearchScope::PromptsOnly, None, 1);
    assert_eq!(one.len(), 1);
    assert_eq!(one[0].snippet, "needle a");
}

#[test]
fn recency_window_excludes_old_records_but_keeps_unparsable_timestamps() {
    let old = record("2024-01-01T00:00:00+00:00", vec![user("needle old")]);
    let new = record("2024-03-01T00:00:00+00:00", vec![user("needle new")]);
    let odd = record("not a timestamp", vec![user("needle odd")]);
    let files = vec![
        corpus_file("m1", "proja", "old.json", &old),
        corpus_file("m1", "proja", "new.json", &new),
        corpus_file("m1", "proja", "odd.json", &odd),
    ];
    let cutoff = parse_rfc3339_millis("2024-02-01T00:00:00+00:00").unwrap();
    let results = search_corpus(&files, "needle", SearchScope::PromptsOnly, Some(cutoff), 10);
    let snippets: Vec<&str> = results.iter().map(|r| r.snippet.as_str()).collect();
    assert!(snippets.contains(&"needle new"));
    assert!(snippets.contains(&"needle odd"));
    assert!(!snippets.contains(&"needle old"));
}

#[test]
fn unreadable_files_are_skipped() {
    let rec = record("2024-01-01T00:00:00+00:00", vec![user("needle here")]);
    let files = vec![
        CorpusFile {
            machine: "m1".to_string(),
            project: "proja".to_string(),
            file_name: "broken.json".to_string(),
            text: "{ half a record".to_string(),
        },
        corpus_file("m1", "proja", "good.json", &rec),
    ];
    let results = search_corpus(&files, "needle", SearchScope::PromptsOnly, None, 10);
    assert_eq!(results.len(), 1);
    assert_eq!(results[0].session_file, "good.json");
}

#[test]
fn snippet_without_match_is_the_first_two_hundred_characters() {
    let content = "b".repeat(250);
    let snippet = create_snippet(&content, "zzz");
    assert_eq!(snippet, "b".repeat(200));
    assert_eq!(create_snippet("short", "zzz"), "short");
}

#[test]
fn snippet_contains_the_matched_text() {
    let content = "The quick brown fox jumps over the lazy dog";
    let snippet = create_snippet(content, "quick");
    assert_eq!(snippet, content);
    assert!(snippet.to_lowercase().contains("quick"));
}

#[test]
fn snippet_marks_cut_text_with_ellipses() {
    let content = "a".repeat(300);
    let snippet = create_snippet(&content, "aaa");
    assert_eq!(snippet, format!("{}...", "a".repeat(83)));
}

#[test]
fn scope_tags_parse_as_documented() {
    assert_eq!(SearchScope::from_str("prompts"), SearchScope::PromptsOnly);
    assert_eq!(SearchScope::from_str("all"), SearchScope::Everything);
    assert_eq!(SearchScope::from_str("conversations"), SearchScope::Conversations);
    assert_eq!(SearchScope::from_str("anything else"), SearchScope::Conversations);
}
