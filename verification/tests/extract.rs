use devlog::decode::decode_line;
use devlog::extract::extract_content;

fn content_of(line: &str) -> String {
    extract_content(&decode_line(line).unwrap())
}

#[test]
fn bare_string_message_is_returned_verbatim() {
    assert_eq!(content_of(r#"{"type":"user","message":"plain text"}"#), "plain text");
}

#[test]
fn structured_string_content_is_returned() {
    assert_eq!(content_of(r#"{"type":"user","message":{"content":"inner"}}"#), "inner");
}

#[test]
fn text_blocks_are_joined_with_newlines_and_other_blocks_dropped() {
    let line = r#"{"type":"assistant","message":{"content":[
        {"type":"text","text":"first"},
        {"type":"tool_result","text":"skipped"},
        {"type":"text","text":"second"}
    ]}}"#
        .replace('\n', " ");
    assert_eq!(content_of(&line), "first\nsecond");
}

#[test]
fn text_block_without_text_is_dropped() {
    let line = r#"{"type":"user","message":{"content":[{"type":"text"},{"type":"text","text":"only"}]}}"#;
    assert_eq!(content_of(line), "only");
}

#[test]
fn open_content_field_is_the_fallback() {
    assert_eq!(content_of(r#"{"type":"user","content":"from the open bag"}"#), "from the open bag");
}

#[test]
fn absence_degrades_to_the_empty_string() {
    assert_eq!(content_of(r#"{"type":"user"}"#), "");
    assert_eq!(content_of(r#"{"type":"user","message":{}}"#), "");
    assert_eq!(content_of(r#"{"type":"user","content":7}"#), "");
}

#[test]
fn bare_string_wins_over_open_content() {
    assert_eq!(
        content_of(r#"{"type":"user","message":"primary","content":"fallback"}"#),
        "primary"
    );
}

#[test]
fn lines_with_malformed_shapes_are_refused_by_the_decoder() {
    assert!(decode_line(r#"{"message":"no tag"}"#).is_none());
    assert!(decode_line(r#"{"type":7}"#).is_none());
    assert!(decode_line(r#"{"type":"user","message":{"content":42}}"#).is_none());
    assert!(decode_line(r#"{"type":"user","timestamp":[1]}"#).is_none());
    assert!(decode_line(r#"not json"#).is_none());
    assert!(decode_line(r#"[1,2,3]"#).is_none());
}
