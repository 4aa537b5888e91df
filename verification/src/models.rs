//! The ingestion service's flat record shapes: what its storage layer
//! accepts.  All fields are plain values; the service itself is I/O
//! and lives with the application around the library.

use vstd::prelude::*;

verus! {

/// One stored session, as the ingestion service receives it.
pub struct DevlogSession {
    pub schema_version: String,
    pub session_id: String,
    pub timestamp: String,
    pub machine_id: String,
    pub project_dir: String,
    pub git: Option<GitInfo>,
    pub conversation: Vec<ConversationEntry>,
}

/// Git metadata as the ingestion service stores it: every part
/// optional.
pub struct GitInfo {
    pub remote: Option<String>,
    pub branch: Option<String>,
    pub commit: Option<String>,
}

/// One conversation row in the service's flat shape.
pub struct ConversationEntry {
    pub role: String,
    pub timestamp: Option<String>,
    pub content: Option<String>,
    pub tool_name: Option<String>,
    pub tool_description: Option<String>,
}

} // verus!
