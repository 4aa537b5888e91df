//! The transcript data model: raw entries as decoded from one JSON
//! line, and the conversation entries that the reducer emits.  Each
//! type has a mathematical image (`..V`) over character sequences, and
//! every contract in the library speaks of those images.

use vstd::prelude::*;
use crate::json::{JsonField, JsonFieldV, JsonVal, JsonValV, jv_view, jf_view_seq};

verus! {

/// One decoded transcript line.
#[derive(Debug, PartialEq)]
pub struct RawEntry {
    /// The entry's tag: "user", "assistant", "tool_use", ...
    pub entry_type: String,
    /// The polymorphic message payload, if any.
    pub message: Option<MessageContent>,
    /// Tool name for a standalone tool invocation.
    pub tool: Option<String>,
    /// Structured tool input payload.
    pub input: Option<JsonVal>,
    /// Event time, as written in the log.
    pub timestamp: Option<String>,
    /// All further fields of the line, kept as an open bag.
    pub extra: Vec<JsonField>,
}

/// A message is either a bare string or a structured object.
#[derive(Debug, PartialEq)]
pub enum MessageContent {
    Object(MessageObject),
    String(String),
}

/// The structured shape of a message.
#[derive(Debug, PartialEq)]
pub struct MessageObject {
    /// The message body: a bare string or a list of blocks.
    pub content: Option<ContentType>,
    /// Inline tool invocations carried by the message.
    pub tool_use: Option<Vec<ToolUse>>,
    /// Unmodeled members of the message object.
    pub extra: Vec<JsonField>,
}

/// A message body.
#[derive(Debug, PartialEq)]
pub enum ContentType {
    String(String),
    Blocks(Vec<ContentBlock>),
}

/// One block of a structured message body.
#[derive(Debug, PartialEq)]
pub struct ContentBlock {
    /// The block's tag; only "text" blocks carry content.
    pub block_type: String,
    /// The block's text, if any.
    pub text: Option<String>,
    /// Unmodeled members of the block.
    pub extra: Vec<JsonField>,
}

/// One inline tool invocation.
#[derive(Debug, PartialEq)]
pub struct ToolUse {
    pub name: Option<String>,
    pub tool_type: Option<String>,
    pub input: Option<JsonVal>,
}

/// One persisted conversation unit.
#[derive(Debug, PartialEq)]
pub enum ConversationEntry {
    User { timestamp: Option<String>, content: String },
    Assistant { timestamp: Option<String>, content: String },
    ToolSummary { actions: Vec<String> },
}

/// Image of an optional string.
pub open spec fn opt_str_view(o: Option<String>) -> Option<Seq<char>> {
    match o {
        Some(s) => Some(s@),
        None => None,
    }
}

/// Image of an optional document.
pub open spec fn opt_jv_view(o: Option<JsonVal>) -> Option<JsonValV> {
    match o {
        Some(t) => Some(jv_view(t)),
        None => None,
    }
}

/// Image of a list of strings.
pub open spec fn strs_view(v: Seq<String>) -> Seq<Seq<char>> {
    Seq::new(v.len(), |i: int| v[i]@)
}

#[verifier::ext_equal]
pub struct ToolUseV {
    pub name: Option<Seq<char>>,
    pub tool_type: Option<Seq<char>>,
    pub input: Option<JsonValV>,
}

#[verifier::ext_equal]
pub struct ContentBlockV {
    pub block_type: Seq<char>,
    pub text: Option<Seq<char>>,
    pub extra: Seq<JsonFieldV>,
}

#[verifier::ext_equal]
pub enum ContentTypeV {
    String(Seq<char>),
    Blocks(Seq<ContentBlockV>),
}

#[verifier::ext_equal]
pub struct MessageObjectV {
    pub content: Option<ContentTypeV>,
    pub tool_use: Option<Seq<ToolUseV>>,
    pub extra: Seq<JsonFieldV>,
}

#[verifier::ext_equal]
pub enum MessageContentV {
    Object(MessageObjectV),
    String(Seq<char>),
}

#[verifier::ext_equal]
pub struct RawEntryV {
    pub entry_type: Seq<char>,
    pub message: Option<MessageContentV>,
    pub tool: Option<Seq<char>>,
    pub input: Option<JsonValV>,
    pub timestamp: Option<Seq<char>>,
    pub extra: Seq<JsonFieldV>,
}

#[verifier::ext_equal]
pub enum ConversationEntryV {
    User { timestamp: Option<Seq<char>>, content: Seq<char> },
    Assistant { timestamp: Option<Seq<char>>, content: Seq<char> },
    ToolSummary { actions: Seq<Seq<char>> },
}

/// Image of one inline tool invocation.
pub open spec fn tu_view(t: ToolUse) -> ToolUseV {
    ToolUseV {
        name: opt_str_view(t.name),
        tool_type: opt_str_view(t.tool_type),
        input: opt_jv_view(t.input),
    }
}

/// Image of a list of inline tool invocations.
pub open spec fn tu_view_seq(ts: Seq<ToolUse>) -> Seq<ToolUseV> {
    Seq::new(ts.len(), |i: int| tu_view(ts[i]))
}

/// Image of one content block.
pub open spec fn cb_view(b: ContentBlock) -> ContentBlockV {
    ContentBlockV { block_type: b.block_type@, text: opt_str_view(b.text), extra: jf_view_seq(b.extra@) }
}

/// Image of a list of content blocks.
pub open spec fn cb_view_seq(bs: Seq<ContentBlock>) -> Seq<ContentBlockV> {
    Seq::new(bs.len(), |i: int| cb_view(bs[i]))
}

/// Image of a message body.
pub open spec fn ct_view(c: ContentType) -> ContentTypeV {
    match c {
        ContentType::String(s) => ContentTypeV::String(s@),
        ContentType::Blocks(bs) => ContentTypeV::Blocks(cb_view_seq(bs@)),
    }
}

/// Image of a structured message.
pub open spec fn mo_view(o: MessageObject) -> MessageObjectV {
    MessageObjectV {
        content: match o.content {
            Some(c) => Some(ct_view(c)),
            None => None,
        },
        tool_use: match o.tool_use {
            Some(ts) => Some(tu_view_seq(ts@)),
            None => None,
        },
        extra: jf_view_seq(o.extra@),
    }
}

/// Image of a message.
pub open spec fn mc_view(m: MessageContent) -> MessageContentV {
    match m {
        MessageContent::Object(o) => MessageContentV::Object(mo_view(o)),
        MessageContent::String(s) => MessageContentV::String(s@),
    }
}

/// Image of one raw entry.
pub open spec fn re_view(e: RawEntry) -> RawEntryV {
    RawEntryV {
        entry_type: e.entry_type@,
        message: match e.message {
            Some(m) => Some(mc_view(m)),
            None => None,
        },
        tool: opt_str_view(e.tool),
        input: opt_jv_view(e.input),
        timestamp: opt_str_view(e.timestamp),
        extra: jf_view_seq(e.extra@),
    }
}

/// Image of a list of raw entries.
pub open spec fn re_view_seq(es: Seq<RawEntry>) -> Seq<RawEntryV> {
    Seq::new(es.len(), |i: int| re_view(es[i]))
}

/// Image of one conversation entry.
pub open spec fn ce_view(c: ConversationEntry) -> ConversationEntryV {
    match c {
        ConversationEntry::User { timestamp, content } => ConversationEntryV::User {
            timestamp: opt_str_view(timestamp),
            content: content@,
        },
        ConversationEntry::Assistant { timestamp, content } => ConversationEntryV::Assistant {
            timestamp: opt_str_view(timestamp),
            content: content@,
        },
        ConversationEntry::ToolSummary { actions } => ConversationEntryV::ToolSummary {
            actions: strs_view(actions@),
        },
    }
}

/// Image of a conversation.
pub open spec fn ce_view_seq(cs: Seq<ConversationEntry>) -> Seq<ConversationEntryV> {
    Seq::new(cs.len(), |i: int| ce_view(cs[i]))
}

} // verus!
