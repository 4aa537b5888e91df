use devlog::model::ConversationEntry;
use devlog::output::{DevlogOutput, serialize_record};
use devlog::search::CorpusFile;
use devlog::stats::{
    analyze_session, count_words, extract_file_from_action, grouped_with_cutoff, stats_with_cutoff,
};

fn record(machine_hint: &str, timestamp: &str, conversation: Vec<ConversationEntry>) -> DevlogOutput {
    DevlogOutput {
        schema_version: "1.0".to_string(),
        session_id: format!("sess-{}-{}", machine_hint, timestamp),
        timestamp: timestamp.to_string(),
        machine_id: machine_hint.to_string(),
        project_dir: "/p".to_string(),
        git: None,
        conversation,
    }
}

fn corpus_file(machine: &str, project: &str, name: &str, rec: &DevlogOutput) -> CorpusFile {
    CorpusFile {
        machine: machine.to_string(),
        project: project.to_string(),
        file_name: name.to_string(),
        text: serialize_record(rec),
    }
}

fn session(prompt: &str, reply: &str, actions: Vec<&str>) -> Vec<ConversationEntry> {
    vec![
        ConversationEntry::User { timestamp: None, content: prompt.to_string() },
        ConversationEntry::Assistant { timestamp: None, content: reply.to_string() },
        ConversationEntry::ToolSummary {
            actions: actions.iter().map(|a| a.to_string()).collect(),
        },
    ]
}

#[test]
fn counting_words_splits_on_whitespace() {
    assert_eq!(count_words(""), 0);
    assert_eq!(count_words("   "), 0);
    assert_eq!(count_words("one"), 1);
    assert_eq!(count_words("one two  three\nfour\t"), 4);
}

#[test]
fn counting_words_splits_on_unicode_whitespace_too() {
    assert_eq!(count_words("a\u{a0}b"), 2);
    assert_eq!(count_words("x\u{2003}y z"), 3);
    assert_eq!(count_words("\u{3000}\u{2028}"), 0);
}

#[test]
fn file_extraction_strips_the_verb_prefix() {
    assert_eq!(extract_file_from_action("edited src/a.rs"), Some("src/a.rs".to_string()));
    assert_eq!(extract_file_from_action("read conf.toml"), Some("conf.toml".to_string()));
    assert_eq!(extract_file_from_action("created out.txt"), Some("out.txt".to_string()));
    assert_eq!(extract_file_from_action("ran cargo build"), None);
    assert_eq!(extract_file_from_action("used subagent"), None);
}

#[test]
fn analysis_counts_prompts_words_tools_and_distinct_files() {
    let rec = record(
        "m1",
        "2024-01-01T00:00:00+00:00",
        vec![
            ConversationEntry::User { timestamp: None, content: "fix the bug now".to_string() },
            ConversationEntry::Assistant { timestamp: None, content: "done and done".to_string() },
            ConversationEntry::ToolSummary {
                actions: vec![
                    "read a.rs".to_string(),
                    "edited a.rs".to_string(),
                    "created b.rs".to_string(),
                    "ran cargo build".to_string(),
                ],
            },
            ConversationEntry::User { timestamp: None, content: "thanks".to_string() },
        ],
    );
    let s = analyze_session(&rec);
    assert_eq!(s.prompts, 2);
    assert_eq!(s.prompt_words, 5);
    assert_eq!(s.response_words, 3);
    assert_eq!(s.tool_calls, 4);
    assert_eq!(s.files_touched, 2);
}

#[test]
fn level_one_groups_by_machine_and_project() {
    let r1 = record("m1", "2024-01-02T00:00:00+00:00", session("one two", "ok", vec![]));
    let r2 = record("m2", "2024-01-03T00:00:00+00:00", session("three", "fine", vec![]));
    let files = vec![
        corpus_file("m1", "projx", "a.json", &r1),
        corpus_file("m2", "projx", "b.json", &r2),
    ];
    let rows = stats_with_cutoff(&files, 0);
    assert_eq!(rows.len(), 2);
    let m1 = rows.iter().find(|r| r.machine == "m1").unwrap();
    assert_eq!(m1.project, "projx");
    assert_eq!(m1.session_count, 1);
    assert_eq!(m1.prompt_count, 1);
    assert_eq!(m1.prompt_words, 2);
    assert_eq!(m1.last_activity, "2024-01-02T00:00:00+00:00");
}

#[test]
fn level_two_merges_machines_of_one_project() {
    let r1 = record(
        "m1",
        "2024-01-02T00:00:00+00:00",
        session("one two", "ok sure", vec!["edited a.rs"]),
    );
    let r2 = record(
        "m2",
        "2024-01-03T00:00:00+00:00",
        session("three four five", "fine", vec!["edited b.rs", "read c.rs"]),
    );
    let files = vec![
        corpus_file("m1", "projx", "a.json", &r1),
        corpus_file("m2", "projx", "b.json", &r2),
    ];
    let by_machine = stats_with_cutoff(&files, 0);
    assert_eq!(by_machine.len(), 2);
    let grouped = grouped_with_cutoff(&files, 0);
    assert_eq!(grouped.len(), 1);
    let g = &grouped[0];
    assert_eq!(g.project, "projx");
    assert_eq!(g.session_count, 2);
    assert_eq!(g.prompt_count, 2);
    assert_eq!(g.prompt_words, 5);
    assert_eq!(g.response_words, 3);
    assert_eq!(g.tool_calls, 3);
    assert_eq!(g.files_touched, 3);
    assert_eq!(g.last_activity, "2024-01-03T00:00:00+00:00");
    assert_eq!(g.machine, "m1, m2");
}

#[test]
fn a_machine_is_listed_even_when_its_name_is_a_substring_of_another() {
    let r1 = record("ab", "2024-01-02T00:00:00+00:00", session("one", "ok", vec![]));
    let r2 = record("a", "2024-01-03T00:00:00+00:00", session("two", "ok", vec![]));
    let files = vec![
        corpus_file("ab", "projx", "a.json", &r1),
        corpus_file("a", "projx", "b.json", &r2),
    ];
    let grouped = grouped_with_cutoff(&files, 0);
    assert_eq!(grouped.len(), 1);
    assert_eq!(grouped[0].machine, "ab, a");
    assert_eq!(grouped[0].session_count, 2);
}

#[test]
fn level_two_machine_label_lists_each_machine_once() {
    let r1 = record("m1", "2024-01-02T00:00:00+00:00", session("a", "b", vec![]));
    let r2 = record("m1", "2024-01-03T00:00:00+00:00", session("c", "d", vec![]));
    let files = vec![
        corpus_file("m1", "projx", "a.json", &r1),
        corpus_file("m1", "projx", "b.json", &r2),
    ];
    let grouped = grouped_with_cutoff(&files, 0);
    assert_eq!(grouped.len(), 1);
    assert_eq!(grouped[0].machine, "m1");
    assert_eq!(grouped[0].session_count, 2);
}

#[test]
fn rows_are_sorted_by_prompt_count_descending() {
    let quiet = record("m1", "2024-01-02T00:00:00+00:00", session("one", "ok", vec![]));
    let busy = record(
        "m1",
        "2024-01-02T01:00:00+00:00",
        vec![
            ConversationEntry::User { timestamp: None, content: "q1".to_string() },
            ConversationEntry::User { timestamp: None, content: "q2".to_string() },
        ],
    );
    let files = vec![
        corpus_file("m1", "quietproj", "a.json", &quiet),
        corpus_file("m1", "busyproj", "b.json", &busy),
    ];
    let rows = stats_with_cutoff(&files, 0);
    assert_eq!(rows.len(), 2);
    assert_eq!(rows[0].project, "busyproj");
    assert_eq!(rows[1].project, "quietproj");
}

#[test]
fn stats_window_excludes_old_records_but_keeps_unparsable_timestamps() {
    let old = record("m1", "2020-01-01T00:00:00+00:00", session("old", "x", vec![]));
    let new = record("m1", "2024-06-01T00:00:00+00:00", session("new", "y", vec![]));
    let odd = record("m1", "sometime", session("odd", "z", vec![]));
    let files = vec![
        corpus_file("m1", "p", "old.json", &old),
        corpus_file("m1", "p", "new.json", &new),
        corpus_file("m1", "p", "odd.json", &odd),
    ];
    let cutoff = devlog::clock::parse_rfc3339_millis("2024-01-01T00:00:00+00:00").unwrap();
    let rows = stats_with_cutoff(&files, cutoff);
    assert_eq!(rows.len(), 1);
    assert_eq!(rows[0].session_count, 2);
}

#[test]
fn broken_record_files_are_skipped_in_stats() {
    let good = record("m1", "2024-06-01T00:00:00+00:00", session("hi", "yo", vec![]));
    let files = vec![
        CorpusFile {
            machine: "m1".to_string(),
            project: "p".to_string(),
            file_name: "broken.json".to_string(),
            text: "nope".to_string(),
        },
        corpus_file("m1", "p", "good.json", &good),
    ];
    let rows = stats_with_cutoff(&files, 0);
    assert_eq!(rows.len(), 1);
    assert_eq!(rows[0].session_count, 1);
}
