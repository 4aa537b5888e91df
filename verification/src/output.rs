//! The session record: the persisted result of one reduction, its
//! canonical JSON wire shape, and the proof that encoding a record
//! and decoding it back yields the record unchanged.

use vstd::prelude::*;
use crate::json::{
    JsonField, JsonFieldV, JsonVal, JsonValV, canonical, depth, fields_depth, fields_lookup,
    fields_get, jv_view, jv_view_seq, jf_view_seq, lemma_jf_view_seq, lemma_jv_view_seq, lex_lt,
    parse_json, parsed_json, render_json, seq_depth,
};
use crate::model::{
    ConversationEntry, ConversationEntryV, ce_view, ce_view_seq, opt_str_view, strs_view,
};
use crate::text::{lex_le, str_eq};

verus! {

/// Git metadata attached to a record.
#[derive(Debug, PartialEq)]
pub struct GitInfo {
    pub remote: Option<String>,
    pub branch: String,
    pub commit: String,
}

/// The image of git metadata.
#[verifier::ext_equal]
pub struct GitInfoV {
    pub remote: Option<Seq<char>>,
    pub branch: Seq<char>,
    pub commit: Seq<char>,
}

/// Image of git metadata.
pub open spec fn gi_view(g: GitInfo) -> GitInfoV {
    GitInfoV { remote: opt_str_view(g.remote), branch: g.branch@, commit: g.commit@ }
}

/// One session record, immutable once written.
#[derive(Debug, PartialEq)]
pub struct DevlogOutput {
    pub schema_version: String,
    pub session_id: String,
    pub timestamp: String,
    pub machine_id: String,
    pub project_dir: String,
    pub git: Option<GitInfo>,
    pub conversation: Vec<ConversationEntry>,
}

/// The image of a session record.
#[verifier::ext_equal]
pub struct DevlogOutputV {
    pub schema_version: Seq<char>,
    pub session_id: Seq<char>,
    pub timestamp: Seq<char>,
    pub machine_id: Seq<char>,
    pub project_dir: Seq<char>,
    pub git: Option<GitInfoV>,
    pub conversation: Seq<ConversationEntryV>,
}

/// Image of a session record.
pub open spec fn dv_view(r: DevlogOutput) -> DevlogOutputV {
    DevlogOutputV {
        schema_version: r.schema_version@,
        session_id: r.session_id@,
        timestamp: r.timestamp@,
        machine_id: r.machine_id@,
        project_dir: r.project_dir@,
        git: match r.git {
            Some(g) => Some(gi_view(g)),
            None => None,
        },
        conversation: ce_view_seq(r.conversation@),
    }
}

/// An optional string as a document: the string, or null.
pub open spec fn opt_str_tree(o: Option<Seq<char>>) -> JsonValV {
    match o {
        Some(s) => JsonValV::Str(s),
        None => JsonValV::Null,
    }
}

/// A list of strings as documents.
pub open spec fn strs_trees(ss: Seq<Seq<char>>) -> Seq<JsonValV> {
    Seq::new(ss.len(), |i: int| JsonValV::Str(ss[i]))
}

/// One conversation entry as a document, tagged by a "type" member.
pub open spec fn entry_tree(c: ConversationEntryV) -> JsonValV {
    match c {
        ConversationEntryV::User { timestamp, content } => JsonValV::Obj(
            seq![
                JsonFieldV { key: "content"@, val: JsonValV::Str(content) },
                JsonFieldV { key: "timestamp"@, val: opt_str_tree(timestamp) },
                JsonFieldV { key: "type"@, val: JsonValV::Str("user"@) },
            ],
        ),
        ConversationEntryV::Assistant { timestamp, content } => JsonValV::Obj(
            seq![
                JsonFieldV { key: "content"@, val: JsonValV::Str(content) },
                JsonFieldV { key: "timestamp"@, val: opt_str_tree(timestamp) },
                JsonFieldV { key: "type"@, val: JsonValV::Str("assistant"@) },
            ],
        ),
        ConversationEntryV::ToolSummary { actions } => JsonValV::Obj(
            seq![
                JsonFieldV { key: "actions"@, val: JsonValV::Arr(strs_trees(actions)) },
                JsonFieldV { key: "type"@, val: JsonValV::Str("tool_summary"@) },
            ],
        ),
    }
}

/// A conversation as a list of documents.
pub open spec fn entries_trees(cs: Seq<ConversationEntryV>) -> Seq<JsonValV> {
    Seq::new(cs.len(), |i: int| entry_tree(cs[i]))
}

/// Git metadata as a document: an object, or null when absent.
pub open spec fn git_tree(g: Option<GitInfoV>) -> JsonValV {
    match g {
        Some(g) => JsonValV::Obj(
            seq![
                JsonFieldV { key: "branch"@, val: JsonValV::Str(g.branch) },
                JsonFieldV { key: "commit"@, val: JsonValV::Str(g.commit) },
                JsonFieldV { key: "remote"@, val: opt_str_tree(g.remote) },
            ],
        ),
        None => JsonValV::Null,
    }
}

/// A session record as a document: one object whose members stand in
/// key order.
pub open spec fn record_tree(r: DevlogOutputV) -> JsonValV {
    JsonValV::Obj(
        seq![
            JsonFieldV { key: "conversation"@, val: JsonValV::Arr(entries_trees(r.conversation)) },
            JsonFieldV { key: "git"@, val: git_tree(r.git) },
            JsonFieldV { key: "machine_id"@, val: JsonValV::Str(r.machine_id) },
            JsonFieldV { key: "project_dir"@, val: JsonValV::Str(r.project_dir) },
            JsonFieldV { key: "schema_version"@, val: JsonValV::Str(r.schema_version) },
            JsonFieldV { key: "session_id"@, val: JsonValV::Str(r.session_id) },
            JsonFieldV { key: "timestamp"@, val: JsonValV::Str(r.timestamp) },
        ],
    )
}

/// Decodes a list of string documents, all or nothing.
pub open spec fn strs_of_trees(vs: Seq<JsonValV>) -> Option<Seq<Seq<char>>>
    decreases vs.len(),
{
    if vs.len() == 0 {
        Some(Seq::empty())
    } else {
        match vs[0] {
            JsonValV::Str(s) => match strs_of_trees(vs.subrange(1, vs.len() as int)) {
                Some(ss) => Some(seq![s] + ss),
                None => None,
            },
            _ => None,
        }
    }
}

/// A string-or-absent member of a decoded object.
pub open spec fn tree_opt_str(fs: Seq<JsonFieldV>, key: Seq<char>) -> Option<Option<Seq<char>>> {
    match fields_lookup(fs, key) {
        None => Some(None),
        Some(JsonValV::Null) => Some(None),
        Some(JsonValV::Str(s)) => Some(Some(s)),
        Some(_) => None,
    }
}

/// A required string member of a decoded object.
pub open spec fn tree_req_str(fs: Seq<JsonFieldV>, key: Seq<char>) -> Option<Seq<char>> {
    match fields_lookup(fs, key) {
        Some(JsonValV::Str(s)) => Some(s),
        _ => None,
    }
}

/// Decodes one conversation entry from a document.
pub open spec fn tree_entry(v: JsonValV) -> Option<ConversationEntryV> {
    match v {
        JsonValV::Obj(fs) => match fields_lookup(fs, "type"@) {
            Some(JsonValV::Str(ty)) => if ty == "user"@ || ty == "assistant"@ {
                match tree_req_str(fs, "content"@) {
                    Some(content) => match tree_opt_str(fs, "timestamp"@) {
                        Some(timestamp) => if ty == "user"@ {
                            Some(ConversationEntryV::User { timestamp, content })
                        } else {
                            Some(ConversationEntryV::Assistant { timestamp, content })
                        },
                        None => None,
                    },
                    None => None,
                }
            } else if ty == "tool_summary"@ {
                match fields_lookup(fs, "actions"@) {
                    Some(JsonValV::Arr(vs)) => match strs_of_trees(vs) {
                        Some(actions) => Some(ConversationEntryV::ToolSummary { actions }),
                        None => None,
                    },
                    _ => None,
                }
            } else {
                None
            },
            _ => None,
        },
        _ => None,
    }
}

/// Decodes a conversation, all entries or nothing.
pub open spec fn trees_entries(vs: Seq<JsonValV>) -> Option<Seq<ConversationEntryV>>
    decreases vs.len(),
{
    if vs.len() == 0 {
        Some(Seq::empty())
    } else {
        match tree_entry(vs[0]) {
            Some(c) => match trees_entries(vs.subrange(1, vs.len() as int)) {
                Some(cs) => Some(seq![c] + cs),
                None => None,
            },
            None => None,
        }
    }
}

/// Decodes git metadata: null or absent means none; an object needs
/// string "branch" and "commit" members and may carry a "remote".
pub open spec fn tree_git(v: JsonValV) -> Option<GitInfoV> {
    match v {
        JsonValV::Obj(fs) => match tree_req_str(fs, "branch"@) {
            Some(branch) => match tree_req_str(fs, "commit"@) {
                Some(commit) => match tree_opt_str(fs, "remote"@) {
                    Some(remote) => Some(GitInfoV { remote, branch, commit }),
                    None => None,
                },
                None => None,
            },
            None => None,
        },
        _ => None,
    }
}

/// Decodes a session record from a document.
pub open spec fn tree_record(v: JsonValV) -> Option<DevlogOutputV> {
    match v {
        JsonValV::Obj(fs) => match (
            tree_req_str(fs, "schema_version"@),
            tree_req_str(fs, "session_id"@),
            tree_req_str(fs, "timestamp"@),
            tree_req_str(fs, "machine_id"@),
            tree_req_str(fs, "project_dir"@),
        ) {
            (
                Some(schema_version),
                Some(session_id),
                Some(timestamp),
                Some(machine_id),
                Some(project_dir),
            ) => {
                let git = match fields_lookup(fs, "git"@) {
                    None => Some(None),
                    Some(JsonValV::Null) => Some(None),
                    Some(gv) => match tree_git(gv) {
                        Some(g) => Some(Some(g)),
                        None => None,
                    },
                };
                match git {
                    Some(git) => match fields_lookup(fs, "conversation"@) {
                        Some(JsonValV::Arr(vs)) => match trees_entries(vs) {
                            Some(conversation) => Some(
                                DevlogOutputV {
                                    schema_version,
                                    session_id,
                                    timestamp,
                                    machine_id,
                                    project_dir,
                                    git,
                                    conversation,
                                },
                            ),
                            None => None,
                        },
                        _ => None,
                    },
                    None => None,
                }
            },
            _ => None,
        },
        _ => None,
    }
}

/// Encoded string lists decode back to themselves.
proof fn lemma_strs_round_trip(ss: Seq<Seq<char>>)
    ensures
        strs_of_trees(strs_trees(ss)) == Some(ss),
    decreases ss.len(),
{
    let ts = strs_trees(ss);
    if ss.len() == 0 {
        assert(strs_of_trees(ts) =~~= Some(ss));
    } else {
        lemma_strs_round_trip(ss.subrange(1, ss.len() as int));
        assert(ts.subrange(1, ts.len() as int) =~= strs_trees(ss.subrange(1, ss.len() as int)));
        assert(strs_of_trees(ts)->0 =~= ss);
    }
}

/// Encoded entries decode back to themselves.
proof fn lemma_entry_round_trip(c: ConversationEntryV)
    ensures
        tree_entry(entry_tree(c)) == Some(c),
{
    reveal_with_fuel(fields_lookup, 5);
    reveal_strlit("user");
    reveal_strlit("assistant");
    reveal_strlit("tool_summary");
    reveal_strlit("content");
    reveal_strlit("timestamp");
    reveal_strlit("type");
    reveal_strlit("actions");
    assert("content"@.len() == 7 && "timestamp"@.len() == 9 && "type"@.len() == 4
        && "actions"@.len() == 7);
    assert("user"@.len() == 4 && "assistant"@.len() == 9 && "tool_summary"@.len() == 12);
    match c {
        ConversationEntryV::User { timestamp, content } => {
            assert(tree_entry(entry_tree(c)) == Some(c));
        },
        ConversationEntryV::Assistant { timestamp, content } => {
            assert(tree_entry(entry_tree(c)) == Some(c));
        },
        ConversationEntryV::ToolSummary { actions } => {
            lemma_strs_round_trip(actions);
            assert(tree_entry(entry_tree(c)) == Some(c));
        },
    }
}

/// Encoded conversations decode back to themselves.
proof fn lemma_entries_round_trip(cs: Seq<ConversationEntryV>)
    ensures
        trees_entries(entries_trees(cs)) == Some(cs),
    decreases cs.len(),
{
    let ts = entries_trees(cs);
    if cs.len() == 0 {
        assert(trees_entries(ts) =~~= Some(cs));
    } else {
        lemma_entry_round_trip(cs[0]);
        lemma_entries_round_trip(cs.subrange(1, cs.len() as int));
        assert(ts.subrange(1, ts.len() as int) =~= entries_trees(cs.subrange(1, cs.len() as int)));
        assert(trees_entries(ts)->0 =~= cs);
    }
}

/// Law: decoding an encoded session record yields the record back,
/// every field and variant tag included.
pub proof fn lemma_record_round_trip(r: DevlogOutputV)
    ensures
        tree_record(record_tree(r)) == Some(r),
{
    reveal_with_fuel(fields_lookup, 9);
    reveal_strlit("schema_version");
    reveal_strlit("session_id");
    reveal_strlit("timestamp");
    reveal_strlit("machine_id");
    reveal_strlit("project_dir");
    reveal_strlit("git");
    reveal_strlit("conversation");
    reveal_strlit("branch");
    reveal_strlit("commit");
    reveal_strlit("remote");
    assert("conversation"@.len() == 12 && "git"@.len() == 3 && "machine_id"@.len() == 10
        && "project_dir"@.len() == 11 && "schema_version"@.len() == 14 && "session_id"@.len() == 10
        && "timestamp"@.len() == 9);
    assert("machine_id"@[0] == 'm' && "session_id"@[0] == 's');
    assert("branch"@.len() == 6 && "commit"@.len() == 6 && "remote"@.len() == 6);
    assert("branch"@[0] == 'b' && "commit"@[0] == 'c' && "remote"@[0] == 'r');
    lemma_entries_round_trip(r.conversation);
    match r.git {
        Some(g) => {
            assert(tree_git(git_tree(r.git)) == Some(g));
        },
        None => {},
    }
    assert(tree_record(record_tree(r)) =~~= Some(r));
}

/// `a` is strictly below `b` because they agree before `i` and differ
/// there.
proof fn lemma_lex_lt_at(a: Seq<char>, b: Seq<char>, i: int)
    requires
        0 <= i < a.len(),
        i < b.len(),
        forall|j: int| 0 <= j < i ==> a[j] == b[j],
        (a[i] as u32) < (b[i] as u32),
    ensures
        lex_lt(a, b),
    decreases i,
{
    if i == 0 {
        assert(a[0] != b[0]);
        assert(lex_le(a, b));
    } else {
        let at = a.subrange(1, a.len() as int);
        let bt = b.subrange(1, b.len() as int);
        assert(forall|j: int| 0 <= j < i - 1 ==> at[j] == bt[j]);
        assert(at[i - 1] == a[i] && bt[i - 1] == b[i]);
        lemma_lex_lt_at(at, bt, i - 1);
        assert(a[0] == b[0]);
        assert(a.drop_first() == at && b.drop_first() == bt);
        assert(lex_le(a, b));
        assert(a[i] != b[i]);
    }
}

/// Every encoded conversation entry is canonical.
proof fn lemma_entry_tree_canonical(c: ConversationEntryV)
    ensures
        canonical(entry_tree(c)),
{
    reveal_strlit("content");
    reveal_strlit("timestamp");
    reveal_strlit("type");
    reveal_strlit("actions");
    assert("content"@.len() == 7 && "timestamp"@.len() == 9 && "type"@.len() == 4
        && "actions"@.len() == 7);
    assert("content"@[0] == 'c' && "timestamp"@[0] == 't' && "type"@[0] == 't' && "actions"@[0]
        == 'a');
    assert("timestamp"@[1] == 'i' && "type"@[1] == 'y');
    lemma_lex_lt_at("content"@, "timestamp"@, 0);
    lemma_lex_lt_at("timestamp"@, "type"@, 1);
    lemma_lex_lt_at("actions"@, "type"@, 0);
    match c {
        ConversationEntryV::User { timestamp, content } => {
            let fs = entry_tree(c)->Obj_0;
            assert(canonical(fs[0].val) && canonical(fs[1].val) && canonical(fs[2].val));
            assert(canonical(entry_tree(c)));
        },
        ConversationEntryV::Assistant { timestamp, content } => {
            let fs = entry_tree(c)->Obj_0;
            assert(canonical(fs[0].val) && canonical(fs[1].val) && canonical(fs[2].val));
            assert(canonical(entry_tree(c)));
        },
        ConversationEntryV::ToolSummary { actions } => {
            let fs = entry_tree(c)->Obj_0;
            let ts = strs_trees(actions);
            assert forall|i: int| 0 <= i < ts.len() implies canonical(#[trigger] ts[i]) by {
                assert(ts[i] == JsonValV::Str(actions[i]));
            }
            assert(canonical(fs[0].val) && canonical(fs[1].val));
            assert(canonical(entry_tree(c)));
        },
    }
}

/// Every encoded session record is canonical, so rendering it and
/// parsing the rendering yields the same document back.
pub proof fn lemma_record_tree_canonical(r: DevlogOutputV)
    ensures
        canonical(record_tree(r)),
{
    reveal_strlit("conversation");
    reveal_strlit("git");
    reveal_strlit("machine_id");
    reveal_strlit("project_dir");
    reveal_strlit("schema_version");
    reveal_strlit("session_id");
    reveal_strlit("timestamp");
    reveal_strlit("branch");
    reveal_strlit("commit");
    reveal_strlit("remote");
    assert("conversation"@.len() == 12 && "git"@.len() == 3 && "machine_id"@.len() == 10
        && "project_dir"@.len() == 11 && "schema_version"@.len() == 14 && "session_id"@.len() == 10
        && "timestamp"@.len() == 9);
    assert("conversation"@[0] == 'c' && "git"@[0] == 'g' && "machine_id"@[0] == 'm'
        && "project_dir"@[0] == 'p' && "schema_version"@[0] == 's' && "session_id"@[0] == 's'
        && "timestamp"@[0] == 't');
    assert("schema_version"@[1] == 'c' && "session_id"@[1] == 'e');
    assert("branch"@[0] == 'b' && "commit"@[0] == 'c' && "remote"@[0] == 'r');
    lemma_lex_lt_at("conversation"@, "git"@, 0);
    lemma_lex_lt_at("git"@, "machine_id"@, 0);
    lemma_lex_lt_at("machine_id"@, "project_dir"@, 0);
    lemma_lex_lt_at("project_dir"@, "schema_version"@, 0);
    lemma_lex_lt_at("schema_version"@, "session_id"@, 1);
    lemma_lex_lt_at("session_id"@, "timestamp"@, 0);
    let es = entries_trees(r.conversation);
    assert forall|i: int| 0 <= i < es.len() implies canonical(#[trigger] es[i]) by {
        assert(es[i] == entry_tree(r.conversation[i]));
        lemma_entry_tree_canonical(r.conversation[i]);
    }
    assert(canonical(record_tree(r)->Obj_0[0].val));
    match r.git {
        Some(g) => {
            lemma_lex_lt_at("branch"@, "commit"@, 0);
            lemma_lex_lt_at("commit"@, "remote"@, 0);
            let gfs = git_tree(r.git)->Obj_0;
            assert(canonical(gfs[0].val) && canonical(gfs[1].val) && canonical(gfs[2].val));
            assert(canonical(git_tree(r.git)));
        },
        None => {
            assert(canonical(git_tree(r.git)));
        },
    }
    let fs = record_tree(r)->Obj_0;
    assert(canonical(fs[0].val) && canonical(fs[1].val));
    assert(canonical(fs[2].val) && canonical(fs[3].val) && canonical(fs[4].val) && canonical(
        fs[5].val,
    ) && canonical(fs[6].val));
    assert(lex_lt(fs[0].key, fs[1].key) && lex_lt(fs[1].key, fs[2].key) && lex_lt(
        fs[2].key,
        fs[3].key,
    ) && lex_lt(fs[3].key, fs[4].key) && lex_lt(fs[4].key, fs[5].key) && lex_lt(
        fs[5].key,
        fs[6].key,
    ));
    assert(canonical(record_tree(r)));
}

/// Members no deeper than `k` bound the object's member depth.
proof fn lemma_fields_depth_le(fs: Seq<JsonFieldV>, k: int)
    requires
        k >= 0,
        forall|i: int| 0 <= i < fs.len() ==> depth((#[trigger] fs[i]).val) <= k,
    ensures
        fields_depth(fs) <= k,
    decreases fs.len(),
{
    if fs.len() > 0 {
        let rest = fs.subrange(1, fs.len() as int);
        assert(forall|i: int| 0 <= i < rest.len() ==> rest[i] == fs[i + 1]);
        lemma_fields_depth_le(rest, k);
    }
}

/// Documents no deeper than `k` bound the list's depth.
proof fn lemma_seq_depth_le(a: Seq<JsonValV>, k: int)
    requires
        k >= 0,
        forall|i: int| 0 <= i < a.len() ==> depth(#[trigger] a[i]) <= k,
    ensures
        seq_depth(a) <= k,
    decreases a.len(),
{
    if a.len() > 0 {
        let rest = a.subrange(1, a.len() as int);
        assert(forall|i: int| 0 <= i < rest.len() ==> rest[i] == a[i + 1]);
        lemma_seq_depth_le(rest, k);
    }
}

/// Encoded string lists are flat.
proof fn lemma_strs_trees_depth(ss: Seq<Seq<char>>)
    ensures
        seq_depth(strs_trees(ss)) == 0,
{
    let ts = strs_trees(ss);
    assert forall|i: int| 0 <= i < ts.len() implies depth(#[trigger] ts[i]) <= 0 by {
        assert(ts[i] == JsonValV::Str(ss[i]));
    }
    lemma_seq_depth_le(ts, 0);
    if ts.len() > 0 {
        assert(ts[0] == JsonValV::Str(ss[0]));
        assert(seq_depth(ts) >= depth(ts[0]));
    }
}

/// An encoded conversation entry nests at most two containers.
proof fn lemma_entry_tree_depth(c: ConversationEntryV)
    ensures
        depth(entry_tree(c)) <= 2,
{
    match c {
        ConversationEntryV::User { timestamp, content } => {
            let fs = entry_tree(c)->Obj_0;
            assert forall|i: int| 0 <= i < fs.len() implies depth((#[trigger] fs[i]).val)
                <= 1 by {
                assert(depth(opt_str_tree(timestamp)) == 0);
            }
            lemma_fields_depth_le(fs, 1);
        },
        ConversationEntryV::Assistant { timestamp, content } => {
            let fs = entry_tree(c)->Obj_0;
            assert forall|i: int| 0 <= i < fs.len() implies depth((#[trigger] fs[i]).val)
                <= 1 by {
                assert(depth(opt_str_tree(timestamp)) == 0);
            }
            lemma_fields_depth_le(fs, 1);
        },
        ConversationEntryV::ToolSummary { actions } => {
            let fs = entry_tree(c)->Obj_0;
            lemma_strs_trees_depth(actions);
            assert forall|i: int| 0 <= i < fs.len() implies depth((#[trigger] fs[i]).val)
                <= 1 by {
                assert(depth(fs[0].val) == 1);
                assert(depth(fs[1].val) == 0);
            }
            lemma_fields_depth_le(fs, 1);
        },
    }
}

/// An encoded session record nests at most four containers, far
/// below the parser's limit.
pub proof fn lemma_record_tree_depth(r: DevlogOutputV)
    ensures
        depth(record_tree(r)) <= 4,
{
    let es = entries_trees(r.conversation);
    assert forall|i: int| 0 <= i < es.len() implies depth(#[trigger] es[i]) <= 2 by {
        assert(es[i] == entry_tree(r.conversation[i]));
        lemma_entry_tree_depth(r.conversation[i]);
    }
    lemma_seq_depth_le(es, 2);
    assert(depth(git_tree(r.git)) <= 1) by {
        match r.git {
            Some(g) => {
                let gfs = git_tree(r.git)->Obj_0;
                assert forall|i: int| 0 <= i < gfs.len() implies depth((#[trigger] gfs[i]).val)
                    <= 0 by {
                    assert(depth(opt_str_tree(g.remote)) == 0);
                }
                lemma_fields_depth_le(gfs, 0);
            },
            None => {},
        }
    }
    let fs = record_tree(r)->Obj_0;
    assert forall|i: int| 0 <= i < fs.len() implies depth((#[trigger] fs[i]).val) <= 3 by {
        assert(depth(fs[0].val) == 1 + seq_depth(es));
    }
    lemma_fields_depth_le(fs, 3);
}

/// Encodes an optional string as a document.
fn opt_str_tree_exec(o: &Option<String>) -> (t: JsonVal)
    ensures
        jv_view(t) == opt_str_tree(opt_str_view(*o)),
{
    match o {
        Some(s) => JsonVal::Str(s.clone()),
        None => JsonVal::Null,
    }
}

/// Encodes one conversation entry as a document.
fn encode_entry(c: &ConversationEntry) -> (t: JsonVal)
    ensures
        jv_view(t) == entry_tree(ce_view(*c)),
{
    match c {
        ConversationEntry::User { timestamp, content } => {
            let mut fs: Vec<JsonField> = Vec::new();
            fs.push(JsonField { key: "content".to_owned(), val: JsonVal::Str(content.clone()) });
            fs.push(JsonField { key: "timestamp".to_owned(), val: opt_str_tree_exec(timestamp) });
            fs.push(JsonField { key: "type".to_owned(), val: JsonVal::Str("user".to_owned()) });
            let t = JsonVal::Obj(fs);
            proof {
                lemma_jf_view_seq(t->Obj_0@);
                assert(jv_view(t)->Obj_0 =~= entry_tree(ce_view(*c))->Obj_0);
            }
            t
        },
        ConversationEntry::Assistant { timestamp, content } => {
            let mut fs: Vec<JsonField> = Vec::new();
            fs.push(JsonField { key: "content".to_owned(), val: JsonVal::Str(content.clone()) });
            fs.push(JsonField { key: "timestamp".to_owned(), val: opt_str_tree_exec(timestamp) });
            fs.push(
                JsonField { key: "type".to_owned(), val: JsonVal::Str("assistant".to_owned()) },
            );
            let t = JsonVal::Obj(fs);
            proof {
                lemma_jf_view_seq(t->Obj_0@);
                assert(jv_view(t)->Obj_0 =~= entry_tree(ce_view(*c))->Obj_0);
            }
            t
        },
        ConversationEntry::ToolSummary { actions } => {
            let mut docs: Vec<JsonVal> = Vec::new();
            let mut i: usize = 0;
            while i < actions.len()
                invariant
                    i <= actions@.len(),
                    docs@.len() == i,
                    forall|k: int|
                        0 <= k < i ==> jv_view(#[trigger] docs@[k]) == JsonValV::Str(
                            actions@[k]@,
                        ),
                decreases actions@.len() - i,
            {
                docs.push(JsonVal::Str(actions[i].clone()));
                i = i + 1;
            }
            proof {
                lemma_jv_view_seq(docs@);
                assert(jv_view_seq(docs@) =~= strs_trees(strs_view(actions@)));
            }
            let mut fs: Vec<JsonField> = Vec::new();
            fs.push(JsonField { key: "actions".to_owned(), val: JsonVal::Arr(docs) });
            fs.push(
                JsonField { key: "type".to_owned(), val: JsonVal::Str("tool_summary".to_owned()) },
            );
            let t = JsonVal::Obj(fs);
            proof {
                lemma_jf_view_seq(t->Obj_0@);
                assert(jv_view(t)->Obj_0 =~= entry_tree(ce_view(*c))->Obj_0);
            }
            t
        },
    }
}

/// Encodes a session record as its canonical document.
pub fn encode_record(r: &DevlogOutput) -> (t: JsonVal)
    ensures
        jv_view(t) == record_tree(dv_view(*r)),
{
    let mut docs: Vec<JsonVal> = Vec::new();
    let mut i: usize = 0;
    while i < r.conversation.len()
        invariant
            i <= r.conversation@.len(),
            docs@.len() == i,
            forall|k: int|
                0 <= k < i ==> jv_view(#[trigger] docs@[k]) == entry_tree(
                    ce_view(r.conversation@[k]),
                ),
        decreases r.conversation@.len() - i,
    {
        let d = encode_entry(&r.conversation[i]);
        docs.push(d);
        i = i + 1;
    }
    proof {
        lemma_jv_view_seq(docs@);
        assert(jv_view_seq(docs@) =~= entries_trees(ce_view_seq(r.conversation@)));
    }
    let git_doc: JsonVal = match &r.git {
        Some(g) => {
            let mut gfs: Vec<JsonField> = Vec::new();
            gfs.push(JsonField { key: "branch".to_owned(), val: JsonVal::Str(g.branch.clone()) });
            gfs.push(JsonField { key: "commit".to_owned(), val: JsonVal::Str(g.commit.clone()) });
            gfs.push(JsonField { key: "remote".to_owned(), val: opt_str_tree_exec(&g.remote) });
            let gt = JsonVal::Obj(gfs);
            proof {
                lemma_jf_view_seq(gt->Obj_0@);
                assert(jv_view(gt)->Obj_0 =~= git_tree(dv_view(*r).git)->Obj_0);
            }
            gt
        },
        None => JsonVal::Null,
    };
    let mut fs: Vec<JsonField> = Vec::new();
    fs.push(JsonField { key: "conversation".to_owned(), val: JsonVal::Arr(docs) });
    fs.push(JsonField { key: "git".to_owned(), val: git_doc });
    fs.push(JsonField { key: "machine_id".to_owned(), val: JsonVal::Str(r.machine_id.clone()) });
    fs.push(JsonField { key: "project_dir".to_owned(), val: JsonVal::Str(r.project_dir.clone()) });
    fs.push(
        JsonField { key: "schema_version".to_owned(), val: JsonVal::Str(r.schema_version.clone()) },
    );
    fs.push(JsonField { key: "session_id".to_owned(), val: JsonVal::Str(r.session_id.clone()) });
    fs.push(JsonField { key: "timestamp".to_owned(), val: JsonVal::Str(r.timestamp.clone()) });
    let t = JsonVal::Obj(fs);
    proof {
        lemma_jf_view_seq(t->Obj_0@);
        assert(jv_view(t)->Obj_0 =~= record_tree(dv_view(*r))->Obj_0);
    }
    t
}

proof fn lemma_strs_of_trees_push(vs: Seq<JsonValV>, v: JsonValV)
    ensures
        strs_of_trees(vs.push(v)) == (match (strs_of_trees(vs), v) {
            (Some(ss), JsonValV::Str(s)) => Some(ss.push(s)),
            _ => None,
        }),
    decreases vs.len(),
{
    if vs.len() == 0 {
        assert(vs.push(v)[0] == v);
        assert(vs.push(v).subrange(1, 1) =~= Seq::<JsonValV>::empty());
        assert(strs_of_trees(Seq::<JsonValV>::empty()) == Some(Seq::<Seq<char>>::empty()));
        assert(vs =~= Seq::<JsonValV>::empty());
        match v {
            JsonValV::Str(s) => {
                assert(strs_of_trees(vs.push(v))->0 =~= (strs_of_trees(vs)->0).push(s));
            },
            _ => {},
        }
    } else {
        assert(vs.push(v)[0] == vs[0]);
        assert(vs.push(v).subrange(1, vs.len() as int + 1) =~= vs.subrange(
            1,
            vs.len() as int,
        ).push(v));
        lemma_strs_of_trees_push(vs.subrange(1, vs.len() as int), v);
        match (strs_of_trees(vs), v) {
            (Some(ss), JsonValV::Str(s)) => {
                assert(strs_of_trees(vs.push(v))->0 =~= ss.push(s));
            },
            _ => {},
        }
    }
}

proof fn lemma_strs_of_trees_extend_none(vs: Seq<JsonValV>, i: int)
    requires
        0 <= i <= vs.len(),
        strs_of_trees(vs.subrange(0, i)) is None,
    ensures
        strs_of_trees(vs) is None,
    decreases vs.len() - i,
{
    if i < vs.len() {
        assert(vs.subrange(0, i + 1) =~= vs.subrange(0, i).push(vs[i]));
        lemma_strs_of_trees_push(vs.subrange(0, i), vs[i]);
        lemma_strs_of_trees_extend_none(vs, i + 1);
    } else {
        assert(vs.subrange(0, vs.len() as int) =~= vs);
    }
}

proof fn lemma_trees_entries_push(vs: Seq<JsonValV>, v: JsonValV)
    ensures
        trees_entries(vs.push(v)) == (match (trees_entries(vs), tree_entry(v)) {
            (Some(cs), Some(c)) => Some(cs.push(c)),
            _ => None,
        }),
    decreases vs.len(),
{
    if vs.len() == 0 {
        assert(vs.push(v)[0] == v);
        assert(vs.push(v).subrange(1, 1) =~= Seq::<JsonValV>::empty());
        assert(trees_entries(Seq::<JsonValV>::empty()) == Some(Seq::<ConversationEntryV>::empty()));
        assert(vs =~= Seq::<JsonValV>::empty());
        match tree_entry(v) {
            Some(c) => {
                assert(trees_entries(vs.push(v))->0 =~= (trees_entries(vs)->0).push(c));
            },
            None => {},
        }
    } else {
        assert(vs.push(v)[0] == vs[0]);
        assert(vs.push(v).subrange(1, vs.len() as int + 1) =~= vs.subrange(
            1,
            vs.len() as int,
        ).push(v));
        lemma_trees_entries_push(vs.subrange(1, vs.len() as int), v);
        match (trees_entries(vs), tree_entry(v)) {
            (Some(cs), Some(c)) => {
                assert(trees_entries(vs.push(v))->0 =~= cs.push(c));
            },
            _ => {},
        }
    }
}

proof fn lemma_trees_entries_extend_none(vs: Seq<JsonValV>, i: int)
    requires
        0 <= i <= vs.len(),
        trees_entries(vs.subrange(0, i)) is None,
    ensures
        trees_entries(vs) is None,
    decreases vs.len() - i,
{
    if i < vs.len() {
        assert(vs.subrange(0, i + 1) =~= vs.subrange(0, i).push(vs[i]));
        lemma_trees_entries_push(vs.subrange(0, i), vs[i]);
        lemma_trees_entries_extend_none(vs, i + 1);
    } else {
        assert(vs.subrange(0, vs.len() as int) =~= vs);
    }
}

/// Reads a required string member.
fn req_str_member_exec(fs: &Vec<JsonField>, key: &str) -> (r: Option<String>)
    ensures
        match r {
            Some(s) => tree_req_str(jf_view_seq(fs@), key@) == Some(s@),
            None => tree_req_str(jf_view_seq(fs@), key@) is None,
        },
{
    match fields_get(fs, key) {
        Some(v) => match v {
            JsonVal::Str(s) => Some(s.clone()),
            _ => None,
        },
        None => None,
    }
}

/// Decodes one conversation entry from a document.
#[verifier::loop_isolation(false)]
fn decode_conv_entry(v: &JsonVal) -> (r: Option<ConversationEntry>)
    ensures
        match r {
            Some(c) => tree_entry(jv_view(*v)) == Some(ce_view(c)),
            None => tree_entry(jv_view(*v)) is None,
        },
{
    match v {
        JsonVal::Obj(fs) => {
            let ty: String = match fields_get(fs, "type") {
                Some(tv) => match tv {
                    JsonVal::Str(s) => s.clone(),
                    _ => {
                        return None;
                    },
                },
                None => {
                    return None;
                },
            };
            let is_user = str_eq(ty.as_str(), "user");
            let is_assistant = str_eq(ty.as_str(), "assistant");
            if is_user || is_assistant {
                let content: String = match req_str_member_exec(fs, "content") {
                    Some(s) => s,
                    None => {
                        return None;
                    },
                };
                let timestamp: Option<String> = match crate::decode::opt_str_member_exec(
                    fs,
                    "timestamp",
                ) {
                    Some(o) => o,
                    None => {
                        return None;
                    },
                };
                if is_user {
                    Some(ConversationEntry::User { timestamp, content })
                } else {
                    Some(ConversationEntry::Assistant { timestamp, content })
                }
            } else if str_eq(ty.as_str(), "tool_summary") {
                match fields_get(fs, "actions") {
                    Some(av) => match av {
                        JsonVal::Arr(vs) => {
                            let ghost vsv = jv_view_seq(vs@);
                            proof {
                                lemma_jv_view_seq(vs@);
                                assert(vsv.subrange(0, 0) =~= Seq::<JsonValV>::empty());
                            }
                            let mut actions: Vec<String> = Vec::new();
                            let mut i: usize = 0;
                            while i < vs.len()
                                invariant
                                    i <= vs@.len(),
                                    vsv == jv_view_seq(vs@),
                                    vsv.len() == vs@.len(),
                                    forall|k: int|
                                        0 <= k < vs@.len() ==> #[trigger] vsv[k] == jv_view(
                                            vs@[k],
                                        ),
                                    strs_of_trees(vsv.subrange(0, i as int)) == Some(
                                        strs_view(actions@),
                                    ),
                                decreases vs@.len() - i,
                            {
                                proof {
                                    assert(vsv.subrange(0, i as int + 1) =~= vsv.subrange(
                                        0,
                                        i as int,
                                    ).push(vsv[i as int]));
                                    lemma_strs_of_trees_push(
                                        vsv.subrange(0, i as int),
                                        vsv[i as int],
                                    );
                                }
                                match &vs[i] {
                                    JsonVal::Str(s) => {
                                        actions.push(s.clone());
                                        assert(strs_view(actions@) =~= strs_of_trees(
                                            vsv.subrange(0, i as int + 1),
                                        )->0);
                                    },
                                    _ => {
                                        proof {
                                            lemma_strs_of_trees_extend_none(vsv, i as int + 1);
                                        }
                                        return None;
                                    },
                                }
                                i = i + 1;
                            }
                            assert(vsv.subrange(0, vsv.len() as int) =~= vsv);
                            Some(ConversationEntry::ToolSummary { actions })
                        },
                        _ => None,
                    },
                    None => None,
                }
            } else {
                None
            }
        },
        _ => None,
    }
}

/// Decodes git metadata from a document.
fn decode_git(v: &JsonVal) -> (r: Option<GitInfo>)
    ensures
        match r {
            Some(g) => tree_git(jv_view(*v)) == Some(gi_view(g)),
            None => tree_git(jv_view(*v)) is None,
        },
{
    match v {
        JsonVal::Obj(fs) => {
            let branch: String = match req_str_member_exec(fs, "branch") {
                Some(s) => s,
                None => {
                    return None;
                },
            };
            let commit: String = match req_str_member_exec(fs, "commit") {
                Some(s) => s,
                None => {
                    return None;
                },
            };
            let remote: Option<String> = match crate::decode::opt_str_member_exec(fs, "remote") {
                Some(o) => o,
                None => {
                    return None;
                },
            };
            Some(GitInfo { remote, branch, commit })
        },
        _ => None,
    }
}

/// Decodes a session record from a document.
#[verifier::loop_isolation(false)]
pub fn decode_record(v: &JsonVal) -> (r: Option<DevlogOutput>)
    ensures
        match r {
            Some(rec) => tree_record(jv_view(*v)) == Some(dv_view(rec)),
            None => tree_record(jv_view(*v)) is None,
        },
{
    match v {
        JsonVal::Obj(fs) => {
            let schema_version: String = match req_str_member_exec(fs, "schema_version") {
                Some(s) => s,
                None => {
                    return None;
                },
            };
            let session_id: String = match req_str_member_exec(fs, "session_id") {
                Some(s) => s,
                None => {
                    return None;
                },
            };
            let timestamp: String = match req_str_member_exec(fs, "timestamp") {
                Some(s) => s,
                None => {
                    return None;
                },
            };
            let machine_id: String = match req_str_member_exec(fs, "machine_id") {
                Some(s) => s,
                None => {
                    return None;
                },
            };
            let project_dir: String = match req_str_member_exec(fs, "project_dir") {
                Some(s) => s,
                None => {
                    return None;
                },
            };
            let git: Option<GitInfo> = match fields_get(fs, "git") {
                None => None,
                Some(gv) => match gv {
                    JsonVal::Null => None,
                    _ => match decode_git(gv) {
                        Some(g) => Some(g),
                        None => {
                            return None;
                        },
                    },
                },
            };
            let conversation: Vec<ConversationEntry> = match fields_get(fs, "conversation") {
                Some(cv) => match cv {
                    JsonVal::Arr(vs) => {
                        let ghost vsv = jv_view_seq(vs@);
                        proof {
                            lemma_jv_view_seq(vs@);
                            assert(vsv.subrange(0, 0) =~= Seq::<JsonValV>::empty());
                        }
                        let mut out: Vec<ConversationEntry> = Vec::new();
                        let mut i: usize = 0;
                        while i < vs.len()
                            invariant
                                i <= vs@.len(),
                                vsv == jv_view_seq(vs@),
                                vsv.len() == vs@.len(),
                                forall|k: int|
                                    0 <= k < vs@.len() ==> #[trigger] vsv[k] == jv_view(vs@[k]),
                                trees_entries(vsv.subrange(0, i as int)) == Some(
                                    ce_view_seq(out@),
                                ),
                            decreases vs@.len() - i,
                        {
                            proof {
                                assert(vsv.subrange(0, i as int + 1) =~= vsv.subrange(
                                    0,
                                    i as int,
                                ).push(vsv[i as int]));
                                lemma_trees_entries_push(vsv.subrange(0, i as int), vsv[i as int]);
                            }
                            match decode_conv_entry(&vs[i]) {
                                Some(c) => {
                                    out.push(c);
                                    assert(ce_view_seq(out@) =~= trees_entries(
                                        vsv.subrange(0, i as int + 1),
                                    )->0);
                                },
                                None => {
                                    proof {
                                        lemma_trees_entries_extend_none(vsv, i as int + 1);
                                    }
                                    return None;
                                },
                            }
                            i = i + 1;
                        }
                        assert(vsv.subrange(0, vsv.len() as int) =~= vsv);
                        out
                    },
                    _ => {
                        return None;
                    },
                },
                None => {
                    return None;
                },
            };
            Some(
                DevlogOutput {
                    schema_version,
                    session_id,
                    timestamp,
                    machine_id,
                    project_dir,
                    git,
                    conversation,
                },
            )
        },
        _ => None,
    }
}

/// What a text deserializes to as a session record, if anything.
pub open spec fn record_of_text(s: Seq<char>) -> Option<DevlogOutputV> {
    match parsed_json(s) {
        Some(doc) => tree_record(doc),
        None => None,
    }
}

/// Serializes a session record to its JSON text.  The text parses
/// back to exactly the record's document.
pub fn serialize_record(r: &DevlogOutput) -> (s: String)
    ensures
        parsed_json(s@) == Some(record_tree(dv_view(*r))),
        record_of_text(s@) == Some(dv_view(*r)),
{
    let t = encode_record(r);
    proof {
        lemma_record_tree_canonical(dv_view(*r));
        lemma_record_tree_depth(dv_view(*r));
        lemma_record_round_trip(dv_view(*r));
    }
    render_json(&t)
}

/// Deserializes a session record from a JSON text.
pub fn deserialize_record(s: &str) -> (r: Option<DevlogOutput>)
    ensures
        match r {
            Some(rec) => record_of_text(s@) == Some(dv_view(rec)),
            None => record_of_text(s@) is None,
        },
{
    match parse_json(s) {
        Some(t) => decode_record(&t),
        None => None,
    }
}

/// Law: a serialized record deserializes to the original, every field
/// and variant tag included.
pub proof fn lemma_serialize_round_trip(r: DevlogOutputV, s: Seq<char>)
    requires
        parsed_json(s) == Some(record_tree(r)),
    ensures
        record_of_text(s) == Some(r),
{
    lemma_record_round_trip(r);
}

} // verus!
