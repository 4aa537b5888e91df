//! The schema decoder: turns a parsed JSON document into a `RawEntry`,
//! with one decode path per message shape, and the transcript parser
//! that applies it line by line, skipping blank lines silently and
//! undecodable lines with a diagnostic.

use vstd::prelude::*;
use crate::json::{
    JsonField, JsonFieldV, JsonVal, JsonValV, fields_get, fields_lookup, jf_view_seq, jv_view,
    parse_json, parsed_json,
};
use crate::model::{
    ContentBlock, ContentBlockV, ContentType, ContentTypeV, MessageContent, MessageContentV,
    MessageObject, MessageObjectV, RawEntry, RawEntryV, ToolUse, ToolUseV, cb_view, cb_view_seq,
    mc_view, mo_view, re_view, re_view_seq, strs_view, tu_view, tu_view_seq,
};
use crate::text::{is_space, is_space_char, str_eq, chars_of};

verus! {

/// Members of `fs` whose key is not among `keys`, in order.
pub open spec fn fields_without(fs: Seq<JsonFieldV>, keys: Seq<Seq<char>>) -> Seq<JsonFieldV>
    decreases fs.len(),
{
    if fs.len() == 0 {
        Seq::empty()
    } else {
        let rest = fields_without(fs.subrange(1, fs.len() as int), keys);
        if keys.contains(fs[0].key) {
            rest
        } else {
            seq![fs[0]] + rest
        }
    }
}

proof fn lemma_fields_without_push(fs: Seq<JsonFieldV>, f: JsonFieldV, keys: Seq<Seq<char>>)
    ensures
        fields_without(fs.push(f), keys) == fields_without(fs, keys) + (if keys.contains(f.key) {
            Seq::<JsonFieldV>::empty()
        } else {
            seq![f]
        }),
    decreases fs.len(),
{
    let tail = if keys.contains(f.key) {
        Seq::<JsonFieldV>::empty()
    } else {
        seq![f]
    };
    if fs.len() == 0 {
        assert(fs.push(f)[0] == f);
        assert(fs.push(f).subrange(1, 1) =~= Seq::<JsonFieldV>::empty());
        assert(fields_without(Seq::<JsonFieldV>::empty(), keys) =~= Seq::<JsonFieldV>::empty());
        assert(fs =~= Seq::<JsonFieldV>::empty());
        assert(fields_without(fs.push(f), keys) =~= fields_without(fs, keys) + tail);
    } else {
        assert(fs.push(f)[0] == fs[0]);
        assert(fs.push(f).subrange(1, fs.len() as int + 1) =~= fs.subrange(
            1,
            fs.len() as int,
        ).push(f));
        lemma_fields_without_push(fs.subrange(1, fs.len() as int), f, keys);
        assert(fields_without(fs.push(f), keys) =~= fields_without(fs, keys) + tail);
    }
}

/// Copies the members of `fs` whose key is not among `keys`.
fn fields_without_exec(fs: &Vec<JsonField>, keys: &Vec<String>) -> (r: Vec<JsonField>)
    ensures
        jf_view_seq(r@) == fields_without(jf_view_seq(fs@), strs_view(keys@)),
{
    let ghost fsv = jf_view_seq(fs@);
    let ghost keysv = strs_view(keys@);
    proof {
        crate::json::lemma_jf_view_seq(fs@);
    }
    let mut out: Vec<JsonField> = Vec::new();
    let mut i: usize = 0;
    while i < fs.len()
        invariant
            i <= fs@.len(),
            fsv == jf_view_seq(fs@),
            keysv == strs_view(keys@),
            fsv.len() == fs@.len(),
            forall|k: int|
                0 <= k < fs@.len() ==> #[trigger] fsv[k] == (JsonFieldV {
                    key: fs@[k].key@,
                    val: jv_view(fs@[k].val),
                }),
            jf_view_seq(out@) == fields_without(fsv.subrange(0, i as int), keysv),
        decreases fs@.len() - i,
    {
        proof {
            assert(fsv.subrange(0, i as int + 1) =~= fsv.subrange(0, i as int).push(
                fsv[i as int],
            ));
            lemma_fields_without_push(fsv.subrange(0, i as int), fsv[i as int], keysv);
        }
        let f = &fs[i];
        let mut hit = false;
        let mut j: usize = 0;
        while j < keys.len()
            invariant
                j <= keys@.len(),
                keysv == strs_view(keys@),
                keysv.len() == keys@.len(),
                hit == exists|k: int| 0 <= k < j && (#[trigger] keysv[k]) == f.key@,
            decreases keys@.len() - j,
        {
            assert(keysv[j as int] == keys@[j as int]@);
            if str_eq(keys[j].as_str(), f.key.as_str()) {
                hit = true;
                assert(keysv[j as int] == f.key@);
            }
            j = j + 1;
        }
        assert(hit == keysv.contains(f.key@));
        if !hit {
            let fc = f.clone();
            let ghost old_out = out@;
            out.push(fc);
            proof {
                crate::json::lemma_jf_view_seq(old_out);
                crate::json::lemma_jf_view_seq(out@);
                assert(jf_view_seq(out@) =~= jf_view_seq(old_out).push(
                    JsonFieldV { key: f.key@, val: jv_view(f.val) },
                ));
                assert(jf_view_seq(out@) =~= fields_without(fsv.subrange(0, i as int + 1), keysv));
            }
        } else {
            assert(jf_view_seq(out@) =~= fields_without(fsv.subrange(0, i as int + 1), keysv));
        }
        i = i + 1;
    }
    assert(fsv.subrange(0, fsv.len() as int) =~= fsv);
    out
}

/// A string-or-absent member: `Some(None)` when absent or null,
/// `Some(Some(s))` when a string, `None` when present with any other
/// shape (the whole decode is then refused).
pub open spec fn opt_str_member(fs: Seq<JsonFieldV>, key: Seq<char>) -> Option<Option<Seq<char>>> {
    match fields_lookup(fs, key) {
        None => Some(None),
        Some(JsonValV::Null) => Some(None),
        Some(JsonValV::Str(s)) => Some(Some(s)),
        Some(_) => None,
    }
}

/// Decodes one content block: an object with a string "type" tag, an
/// optional string "text", and its remaining members kept as the
/// block's open bag.
pub open spec fn block_of_doc(v: JsonValV) -> Option<ContentBlockV> {
    match v {
        JsonValV::Obj(fs) => match fields_lookup(fs, "type"@) {
            Some(tv) => match tv {
                JsonValV::Str(ty) => match opt_str_member(fs, "text"@) {
                    Some(text) => Some(
                        ContentBlockV {
                            block_type: ty,
                            text,
                            extra: fields_without(fs, seq!["type"@, "text"@]),
                        },
                    ),
                    None => None,
                },
                _ => None,
            },
            None => None,
        },
        _ => None,
    }
}

/// Decodes a block list; one refused block refuses the list.
pub open spec fn blocks_of_docs(vs: Seq<JsonValV>) -> Option<Seq<ContentBlockV>>
    decreases vs.len(),
{
    if vs.len() == 0 {
        Some(Seq::empty())
    } else {
        match block_of_doc(vs[0]) {
            Some(b) => match blocks_of_docs(vs.subrange(1, vs.len() as int)) {
                Some(bs) => Some(seq![b] + bs),
                None => None,
            },
            None => None,
        }
    }
}

/// Decodes one inline tool invocation: an object with optional string
/// "name" and "type" members and an arbitrary "input" payload.
pub open spec fn tool_of_doc(v: JsonValV) -> Option<ToolUseV> {
    match v {
        JsonValV::Obj(fs) => match opt_str_member(fs, "name"@) {
            Some(name) => match opt_str_member(fs, "type"@) {
                Some(tool_type) => Some(
                    ToolUseV {
                        name,
                        tool_type,
                        input: match fields_lookup(fs, "input"@) {
                            None => None,
                            Some(JsonValV::Null) => None,
                            Some(iv) => Some(iv),
                        },
                    },
                ),
                None => None,
            },
            None => None,
        },
        _ => None,
    }
}

/// Decodes an invocation list; one refused invocation refuses the
/// list.
pub open spec fn tools_of_docs(vs: Seq<JsonValV>) -> Option<Seq<ToolUseV>>
    decreases vs.len(),
{
    if vs.len() == 0 {
        Some(Seq::empty())
    } else {
        match tool_of_doc(vs[0]) {
            Some(t) => match tools_of_docs(vs.subrange(1, vs.len() as int)) {
                Some(ts) => Some(seq![t] + ts),
                None => None,
            },
            None => None,
        }
    }
}

/// Decodes a message body: a bare string, or a list of blocks.
pub open spec fn content_of_doc(v: JsonValV) -> Option<ContentTypeV> {
    match v {
        JsonValV::Str(s) => Some(ContentTypeV::String(s)),
        JsonValV::Arr(vs) => match blocks_of_docs(vs) {
            Some(bs) => Some(ContentTypeV::Blocks(bs)),
            None => None,
        },
        _ => None,
    }
}

/// Decodes a structured message object.
pub open spec fn msgobj_of_doc(fs: Seq<JsonFieldV>) -> Option<MessageObjectV> {
    let content = match fields_lookup(fs, "content"@) {
        None => Some(None),
        Some(JsonValV::Null) => Some(None),
        Some(cv) => match content_of_doc(cv) {
            Some(c) => Some(Some(c)),
            None => None,
        },
    };
    let tool_use = match fields_lookup(fs, "tool_use"@) {
        None => Some(None),
        Some(JsonValV::Null) => Some(None),
        Some(JsonValV::Arr(vs)) => match tools_of_docs(vs) {
            Some(ts) => Some(Some(ts)),
            None => None,
        },
        Some(_) => None,
    };
    match content {
        Some(content) => match tool_use {
            Some(tool_use) => Some(
                MessageObjectV {
                    content,
                    tool_use,
                    extra: fields_without(fs, seq!["content"@, "tool_use"@]),
                },
            ),
            None => None,
        },
        None => None,
    }
}

/// Decodes a message: a structured object takes precedence, a bare
/// string is taken verbatim, anything else is refused.
pub open spec fn message_of_doc(v: JsonValV) -> Option<MessageContentV> {
    match v {
        JsonValV::Obj(fs) => match msgobj_of_doc(fs) {
            Some(o) => Some(MessageContentV::Object(o)),
            None => None,
        },
        JsonValV::Str(s) => Some(MessageContentV::String(s)),
        _ => None,
    }
}

/// Decodes one raw entry from a document: an object with a required
/// string "type" tag; "message", "tool", "input" and "timestamp" are
/// optional, and all remaining members are kept as the entry's open
/// bag.  A member of the wrong shape refuses the whole entry.
pub open spec fn entry_of_doc(v: JsonValV) -> Option<RawEntryV> {
    match v {
        JsonValV::Obj(fs) => match fields_lookup(fs, "type"@) {
            Some(JsonValV::Str(ty)) => {
                let message = match fields_lookup(fs, "message"@) {
                    None => Some(None),
                    Some(JsonValV::Null) => Some(None),
                    Some(mv) => match message_of_doc(mv) {
                        Some(m) => Some(Some(m)),
                        None => None,
                    },
                };
                let input = match fields_lookup(fs, "input"@) {
                    None => None,
                    Some(JsonValV::Null) => None,
                    Some(iv) => Some(iv),
                };
                match message {
                    Some(message) => match opt_str_member(fs, "tool"@) {
                        Some(tool) => match opt_str_member(fs, "timestamp"@) {
                            Some(timestamp) => Some(
                                RawEntryV {
                                    entry_type: ty,
                                    message,
                                    tool,
                                    input,
                                    timestamp,
                                    extra: fields_without(
                                        fs,
                                        seq![
                                            "type"@,
                                            "message"@,
                                            "tool"@,
                                            "input"@,
                                            "timestamp"@,
                                        ],
                                    ),
                                },
                            ),
                            None => None,
                        },
                        None => None,
                    },
                    None => None,
                }
            },
            Some(_) => None,
            None => None,
        },
        _ => None,
    }
}

proof fn lemma_blocks_push(vs: Seq<JsonValV>, v: JsonValV)
    ensures
        blocks_of_docs(vs.push(v)) == (match (blocks_of_docs(vs), block_of_doc(v)) {
            (Some(bs), Some(b)) => Some(bs.push(b)),
            _ => None,
        }),
    decreases vs.len(),
{
    if vs.len() == 0 {
        assert(vs.push(v)[0] == v);
        assert(vs.push(v).subrange(1, 1) =~= Seq::<JsonValV>::empty());
        assert(blocks_of_docs(Seq::<JsonValV>::empty()) == Some(Seq::<ContentBlockV>::empty()));
        assert(vs =~= Seq::<JsonValV>::empty());
        if block_of_doc(v) is Some {
            assert(blocks_of_docs(vs.push(v))->0 =~= (blocks_of_docs(vs)->0).push(
                block_of_doc(v)->0,
            ));
        }
    } else {
        assert(vs.push(v)[0] == vs[0]);
        assert(vs.push(v).subrange(1, vs.len() as int + 1) =~= vs.subrange(
            1,
            vs.len() as int,
        ).push(v));
        lemma_blocks_push(vs.subrange(1, vs.len() as int), v);
        match (blocks_of_docs(vs), block_of_doc(v)) {
            (Some(bs), Some(b)) => {
                assert(blocks_of_docs(vs.push(v))->0 =~= bs.push(b));
            },
            _ => {},
        }
    }
}

proof fn lemma_blocks_extend_none(vs: Seq<JsonValV>, i: int)
    requires
        0 <= i <= vs.len(),
        blocks_of_docs(vs.subrange(0, i)) is None,
    ensures
        blocks_of_docs(vs) is None,
    decreases vs.len() - i,
{
    if i < vs.len() {
        assert(vs.subrange(0, i + 1) =~= vs.subrange(0, i).push(vs[i]));
        lemma_blocks_push(vs.subrange(0, i), vs[i]);
        lemma_blocks_extend_none(vs, i + 1);
    } else {
        assert(vs.subrange(0, vs.len() as int) =~= vs);
    }
}

proof fn lemma_tools_push(vs: Seq<JsonValV>, v: JsonValV)
    ensures
        tools_of_docs(vs.push(v)) == (match (tools_of_docs(vs), tool_of_doc(v)) {
            (Some(ts), Some(t)) => Some(ts.push(t)),
            _ => None,
        }),
    decreases vs.len(),
{
    if vs.len() == 0 {
        assert(vs.push(v)[0] == v);
        assert(vs.push(v).subrange(1, 1) =~= Seq::<JsonValV>::empty());
        assert(tools_of_docs(Seq::<JsonValV>::empty()) == Some(Seq::<ToolUseV>::empty()));
        assert(vs =~= Seq::<JsonValV>::empty());
        if tool_of_doc(v) is Some {
            assert(tools_of_docs(vs.push(v))->0 =~= (tools_of_docs(vs)->0).push(tool_of_doc(v)->0));
        }
    } else {
        assert(vs.push(v)[0] == vs[0]);
        assert(vs.push(v).subrange(1, vs.len() as int + 1) =~= vs.subrange(
            1,
            vs.len() as int,
        ).push(v));
        lemma_tools_push(vs.subrange(1, vs.len() as int), v);
        match (tools_of_docs(vs), tool_of_doc(v)) {
            (Some(ts), Some(t)) => {
                assert(tools_of_docs(vs.push(v))->0 =~= ts.push(t));
            },
            _ => {},
        }
    }
}

proof fn lemma_tools_extend_none(vs: Seq<JsonValV>, i: int)
    requires
        0 <= i <= vs.len(),
        tools_of_docs(vs.subrange(0, i)) is None,
    ensures
        tools_of_docs(vs) is None,
    decreases vs.len() - i,
{
    if i < vs.len() {
        assert(vs.subrange(0, i + 1) =~= vs.subrange(0, i).push(vs[i]));
        lemma_tools_push(vs.subrange(0, i), vs[i]);
        lemma_tools_extend_none(vs, i + 1);
    } else {
        assert(vs.subrange(0, vs.len() as int) =~= vs);
    }
}

/// Reads a string-or-absent member; `None` when the member is present
/// with a non-string, non-null shape.
pub fn opt_str_member_exec(fs: &Vec<JsonField>, key: &str) -> (r: Option<Option<String>>)
    ensures
        match r {
            Some(o) => opt_str_member(jf_view_seq(fs@), key@) == Some(
                crate::model::opt_str_view(o),
            ),
            None => opt_str_member(jf_view_seq(fs@), key@) is None,
        },
{
    match fields_get(fs, key) {
        None => Some(None),
        Some(v) => match v {
            JsonVal::Null => Some(None),
            JsonVal::Str(s) => Some(Some(s.clone())),
            _ => None,
        },
    }
}

/// Decodes one content block.
fn decode_block(v: &JsonVal) -> (r: Option<ContentBlock>)
    ensures
        match r {
            Some(b) => block_of_doc(jv_view(*v)) == Some(cb_view(b)),
            None => block_of_doc(jv_view(*v)) is None,
        },
{
    match v {
        JsonVal::Obj(fs) => {
            let ty: String = match fields_get(fs, "type") {
                Some(tv) => match tv {
                    JsonVal::Str(s) => s.clone(),
                    _ => {
                        return None;
                    },
                },
                None => {
                    return None;
                },
            };
            let text: Option<String> = match opt_str_member_exec(fs, "text") {
                Some(o) => o,
                None => {
                    return None;
                },
            };
            let keys: Vec<String> = vec!["type".to_owned(), "text".to_owned()];
            let extra = fields_without_exec(fs, &keys);
            assert(strs_view(keys@) =~= seq!["type"@, "text"@]);
            Some(ContentBlock { block_type: ty, text, extra })
        },
        _ => None,
    }
}

/// Decodes one inline tool invocation.
fn decode_tool(v: &JsonVal) -> (r: Option<ToolUse>)
    ensures
        match r {
            Some(t) => tool_of_doc(jv_view(*v)) == Some(tu_view(t)),
            None => tool_of_doc(jv_view(*v)) is None,
        },
{
    match v {
        JsonVal::Obj(fs) => {
            let name: Option<String> = match opt_str_member_exec(fs, "name") {
                Some(o) => o,
                None => {
                    return None;
                },
            };
            let tool_type: Option<String> = match opt_str_member_exec(fs, "type") {
                Some(o) => o,
                None => {
                    return None;
                },
            };
            let input: Option<JsonVal> = match fields_get(fs, "input") {
                None => None,
                Some(iv) => match iv {
                    JsonVal::Null => None,
                    _ => Some(iv.clone()),
                },
            };
            Some(ToolUse { name, tool_type, input })
        },
        _ => None,
    }
}

/// Decodes a block list, all blocks or nothing.
fn decode_blocks(vs: &Vec<JsonVal>) -> (r: Option<Vec<ContentBlock>>)
    ensures
        match r {
            Some(bs) => blocks_of_docs(crate::json::jv_view_seq(vs@)) == Some(cb_view_seq(bs@)),
            None => blocks_of_docs(crate::json::jv_view_seq(vs@)) is None,
        },
{
    let ghost vsv = crate::json::jv_view_seq(vs@);
    proof {
        crate::json::lemma_jv_view_seq(vs@);
        assert(vsv.subrange(0, 0) =~= Seq::<JsonValV>::empty());
        assert(blocks_of_docs(vsv.subrange(0, 0)) == Some(Seq::<ContentBlockV>::empty()));
    }
    let mut out: Vec<ContentBlock> = Vec::new();
    let mut i: usize = 0;
    while i < vs.len()
        invariant
            i <= vs@.len(),
            vsv == crate::json::jv_view_seq(vs@),
            vsv.len() == vs@.len(),
            forall|k: int| 0 <= k < vs@.len() ==> #[trigger] vsv[k] == jv_view(vs@[k]),
            blocks_of_docs(vsv.subrange(0, i as int)) == Some(cb_view_seq(out@)),
        decreases vs@.len() - i,
    {
        proof {
            assert(vsv.subrange(0, i as int + 1) =~= vsv.subrange(0, i as int).push(vsv[i as int]));
            lemma_blocks_push(vsv.subrange(0, i as int), vsv[i as int]);
        }
        match decode_block(&vs[i]) {
            Some(b) => {
                out.push(b);
                assert(cb_view_seq(out@) =~= blocks_of_docs(vsv.subrange(0, i as int + 1))->0);
            },
            None => {
                proof {
                    lemma_blocks_extend_none(vsv, i as int + 1);
                }
                return None;
            },
        }
        i = i + 1;
    }
    assert(vsv.subrange(0, vsv.len() as int) =~= vsv);
    Some(out)
}

/// Decodes an invocation list, all invocations or nothing.
fn decode_tools(vs: &Vec<JsonVal>) -> (r: Option<Vec<ToolUse>>)
    ensures
        match r {
            Some(ts) => tools_of_docs(crate::json::jv_view_seq(vs@)) == Some(tu_view_seq(ts@)),
            None => tools_of_docs(crate::json::jv_view_seq(vs@)) is None,
        },
{
    let ghost vsv = crate::json::jv_view_seq(vs@);
    proof {
        crate::json::lemma_jv_view_seq(vs@);
        assert(vsv.subrange(0, 0) =~= Seq::<JsonValV>::empty());
        assert(tools_of_docs(vsv.subrange(0, 0)) == Some(Seq::<ToolUseV>::empty()));
    }
    let mut out: Vec<ToolUse> = Vec::new();
    let mut i: usize = 0;
    while i < vs.len()
        invariant
            i <= vs@.len(),
            vsv == crate::json::jv_view_seq(vs@),
            vsv.len() == vs@.len(),
            forall|k: int| 0 <= k < vs@.len() ==> #[trigger] vsv[k] == jv_view(vs@[k]),
            tools_of_docs(vsv.subrange(0, i as int)) == Some(tu_view_seq(out@)),
        decreases vs@.len() - i,
    {
        proof {
            assert(vsv.subrange(0, i as int + 1) =~= vsv.subrange(0, i as int).push(vsv[i as int]));
            lemma_tools_push(vsv.subrange(0, i as int), vsv[i as int]);
        }
        match decode_tool(&vs[i]) {
            Some(t) => {
                out.push(t);
                assert(tu_view_seq(out@) =~= tools_of_docs(vsv.subrange(0, i as int + 1))->0);
            },
            None => {
                proof {
                    lemma_tools_extend_none(vsv, i as int + 1);
                }
                return None;
            },
        }
        i = i + 1;
    }
    assert(vsv.subrange(0, vsv.len() as int) =~= vsv);
    Some(out)
}

/// Decodes a message body.
fn decode_content(v: &JsonVal) -> (r: Option<ContentType>)
    ensures
        match r {
            Some(c) => content_of_doc(jv_view(*v)) == Some(crate::model::ct_view(c)),
            None => content_of_doc(jv_view(*v)) is None,
        },
{
    match v {
        JsonVal::Str(s) => Some(ContentType::String(s.clone())),
        JsonVal::Arr(vs) => match decode_blocks(vs) {
            Some(bs) => Some(ContentType::Blocks(bs)),
            None => None,
        },
        _ => None,
    }
}

/// Decodes a structured message object.
fn decode_msgobj(fs: &Vec<JsonField>) -> (r: Option<MessageObject>)
    ensures
        match r {
            Some(o) => msgobj_of_doc(jf_view_seq(fs@)) == Some(mo_view(o)),
            None => msgobj_of_doc(jf_view_seq(fs@)) is None,
        },
{
    let content: Option<ContentType> = match fields_get(fs, "content") {
        None => None,
        Some(cv) => match cv {
            JsonVal::Null => None,
            _ => match decode_content(cv) {
                Some(c) => Some(c),
                None => {
                    return None;
                },
            },
        },
    };
    let tool_use: Option<Vec<ToolUse>> = match fields_get(fs, "tool_use") {
        None => None,
        Some(tv) => match tv {
            JsonVal::Null => None,
            JsonVal::Arr(vs) => match decode_tools(vs) {
                Some(ts) => Some(ts),
                None => {
                    return None;
                },
            },
            _ => {
                return None;
            },
        },
    };
    let keys: Vec<String> = vec!["content".to_owned(), "tool_use".to_owned()];
    let extra = fields_without_exec(fs, &keys);
    assert(strs_view(keys@) =~= seq!["content"@, "tool_use"@]);
    Some(MessageObject { content, tool_use, extra })
}

/// Decodes a message.
fn decode_message(v: &JsonVal) -> (r: Option<MessageContent>)
    ensures
        match r {
            Some(m) => message_of_doc(jv_view(*v)) == Some(mc_view(m)),
            None => message_of_doc(jv_view(*v)) is None,
        },
{
    match v {
        JsonVal::Str(s) => Some(MessageContent::String(s.clone())),
        JsonVal::Obj(fs) => match decode_msgobj(fs) {
            Some(o) => Some(MessageContent::Object(o)),
            None => None,
        },
        _ => None,
    }
}

/// Decodes one raw entry from a document.
pub fn decode_entry(v: &JsonVal) -> (r: Option<RawEntry>)
    ensures
        match r {
            Some(e) => entry_of_doc(jv_view(*v)) == Some(re_view(e)),
            None => entry_of_doc(jv_view(*v)) is None,
        },
{
    match v {
        JsonVal::Obj(fs) => {
            let ty: String = match fields_get(fs, "type") {
                Some(tv) => match tv {
                    JsonVal::Str(s) => s.clone(),
                    _ => {
                        return None;
                    },
                },
                None => {
                    return None;
                },
            };
            let message: Option<MessageContent> = match fields_get(fs, "message") {
                None => None,
                Some(mv) => match mv {
                    JsonVal::Null => None,
                    _ => match decode_message(mv) {
                        Some(m) => Some(m),
                        None => {
                            return None;
                        },
                    },
                },
            };
            let input: Option<JsonVal> = match fields_get(fs, "input") {
                None => None,
                Some(iv) => match iv {
                    JsonVal::Null => None,
                    _ => Some(iv.clone()),
                },
            };
            let tool: Option<String> = match opt_str_member_exec(fs, "tool") {
                Some(o) => o,
                None => {
                    return None;
                },
            };
            let timestamp: Option<String> = match opt_str_member_exec(fs, "timestamp") {
                Some(o) => o,
                None => {
                    return None;
                },
            };
            let keys: Vec<String> = vec![
                "type".to_owned(),
                "message".to_owned(),
                "tool".to_owned(),
                "input".to_owned(),
                "timestamp".to_owned(),
            ];
            let extra = fields_without_exec(fs, &keys);
            assert(strs_view(keys@) =~= seq!["type"@, "message"@, "tool"@, "input"@, "timestamp"@]);
            Some(RawEntry { entry_type: ty, message, tool, input, timestamp, extra })
        },
        _ => None,
    }
}

/// What one transcript line decodes to, if anything: the line parsed
/// as JSON, then decoded as a raw entry.
pub open spec fn line_decoded(s: Seq<char>) -> Option<RawEntryV> {
    match parsed_json(s) {
        Some(doc) => entry_of_doc(doc),
        None => None,
    }
}

/// A line of whitespace only.
pub open spec fn is_blank(s: Seq<char>) -> bool {
    forall|i: int| 0 <= i < s.len() ==> is_space_char(#[trigger] s[i])
}

/// The entries of a transcript: blank lines skipped silently,
/// undecodable lines skipped, everything else in order.
pub open spec fn transcript_entries(lines: Seq<Seq<char>>) -> Seq<RawEntryV>
    decreases lines.len(),
{
    if lines.len() == 0 {
        Seq::empty()
    } else {
        let rest = transcript_entries(lines.subrange(1, lines.len() as int));
        if is_blank(lines[0]) {
            rest
        } else {
            match line_decoded(lines[0]) {
                Some(e) => seq![e] + rest,
                None => rest,
            }
        }
    }
}

/// The 1-based numbers of the lines a transcript parse warns about:
/// the non-blank lines that do not decode, from line `k` on.
pub open spec fn warned_lines(lines: Seq<Seq<char>>, k: int) -> Seq<int>
    decreases lines.len(),
{
    if lines.len() == 0 {
        Seq::empty()
    } else {
        let rest = warned_lines(lines.subrange(1, lines.len() as int), k + 1);
        if !is_blank(lines[0]) && line_decoded(lines[0]) is None {
            seq![k] + rest
        } else {
            rest
        }
    }
}

proof fn lemma_transcript_push(lines: Seq<Seq<char>>, l: Seq<char>)
    ensures
        transcript_entries(lines.push(l)) == transcript_entries(lines) + (if is_blank(l) {
            Seq::<RawEntryV>::empty()
        } else {
            match line_decoded(l) {
                Some(e) => seq![e],
                None => Seq::<RawEntryV>::empty(),
            }
        }),
    decreases lines.len(),
{
    let tail = if is_blank(l) {
        Seq::<RawEntryV>::empty()
    } else {
        match line_decoded(l) {
            Some(e) => seq![e],
            None => Seq::<RawEntryV>::empty(),
        }
    };
    if lines.len() == 0 {
        assert(lines.push(l)[0] == l);
        assert(lines.push(l).subrange(1, 1) =~= Seq::<Seq<char>>::empty());
        assert(transcript_entries(Seq::<Seq<char>>::empty()) =~= Seq::<RawEntryV>::empty());
        assert(lines =~= Seq::<Seq<char>>::empty());
        assert(transcript_entries(lines.push(l)) =~= transcript_entries(lines) + tail);
    } else {
        assert(lines.push(l)[0] == lines[0]);
        assert(lines.push(l).subrange(1, lines.len() as int + 1) =~= lines.subrange(
            1,
            lines.len() as int,
        ).push(l));
        lemma_transcript_push(lines.subrange(1, lines.len() as int), l);
        assert(transcript_entries(lines.push(l)) =~= transcript_entries(lines) + tail);
    }
}

proof fn lemma_warned_push(lines: Seq<Seq<char>>, l: Seq<char>, k: int)
    ensures
        warned_lines(lines.push(l), k) == warned_lines(lines, k) + (if !is_blank(l)
            && line_decoded(l) is None {
            seq![k + lines.len()]
        } else {
            Seq::<int>::empty()
        }),
    decreases lines.len(),
{
    let tail = if !is_blank(l) && line_decoded(l) is None {
        seq![k + lines.len()]
    } else {
        Seq::<int>::empty()
    };
    if lines.len() == 0 {
        assert(lines.push(l)[0] == l);
        assert(lines.push(l).subrange(1, 1) =~= Seq::<Seq<char>>::empty());
        assert(warned_lines(Seq::<Seq<char>>::empty(), k + 1) =~= Seq::<int>::empty());
        assert(lines =~= Seq::<Seq<char>>::empty());
        assert(warned_lines(lines.push(l), k) =~= warned_lines(lines, k) + tail);
    } else {
        assert(lines.push(l)[0] == lines[0]);
        assert(lines.push(l).subrange(1, lines.len() as int + 1) =~= lines.subrange(
            1,
            lines.len() as int,
        ).push(l));
        lemma_warned_push(lines.subrange(1, lines.len() as int), l, k + 1);
        assert(warned_lines(lines.push(l), k) =~= warned_lines(lines, k) + tail);
    }
}

/// Tests whether a line is whitespace only.
fn is_blank_exec(s: &str) -> (r: bool)
    ensures
        r == is_blank(s@),
{
    let v = chars_of(s);
    let mut i: usize = 0;
    while i < v.len()
        invariant
            i <= v@.len(),
            v@ == s@,
            forall|k: int| 0 <= k < i ==> is_space_char(#[trigger] s@[k]),
        decreases v@.len() - i,
    {
        if !is_space(v[i]) {
            return false;
        }
        i = i + 1;
    }
    true
}

/// Decodes one transcript line.
pub fn decode_line(s: &str) -> (r: Option<RawEntry>)
    ensures
        match r {
            Some(e) => line_decoded(s@) == Some(re_view(e)),
            None => line_decoded(s@) is None,
        },
{
    match parse_json(s) {
        Some(t) => decode_entry(&t),
        None => None,
    }
}

/// Parses a transcript given as its lines: returns the decoded
/// entries in order, and the 1-based numbers of the non-blank lines
/// that failed to decode, for the operator's diagnostics.  One bad
/// line never aborts the rest.
pub fn parse_transcript(lines: &Vec<String>) -> (r: (Vec<RawEntry>, Vec<usize>))
    ensures
        re_view_seq(r.0@) == transcript_entries(strs_view(lines@)),
        Seq::new(r.1@.len(), |i: int| r.1@[i] as int) == warned_lines(strs_view(lines@), 1),
{
    let ghost lv = strs_view(lines@);
    proof {
        assert(lv.subrange(0, 0) =~= Seq::<Seq<char>>::empty());
        assert(transcript_entries(lv.subrange(0, 0)) =~= Seq::<RawEntryV>::empty());
        assert(warned_lines(lv.subrange(0, 0), 1) =~= Seq::<int>::empty());
    }
    let mut entries: Vec<RawEntry> = Vec::new();
    let mut warnings: Vec<usize> = Vec::new();
    let mut i: usize = 0;
    while i < lines.len()
        invariant
            i <= lines@.len(),
            lv == strs_view(lines@),
            lv.len() == lines@.len(),
            re_view_seq(entries@) == transcript_entries(lv.subrange(0, i as int)),
            Seq::new(warnings@.len(), |j: int| warnings@[j] as int) == warned_lines(
                lv.subrange(0, i as int),
                1,
            ),
        decreases lines@.len() - i,
    {
        proof {
            assert(lv.subrange(0, i as int + 1) =~= lv.subrange(0, i as int).push(lv[i as int]));
            lemma_transcript_push(lv.subrange(0, i as int), lv[i as int]);
            lemma_warned_push(lv.subrange(0, i as int), lv[i as int], 1);
        }
        let line = &lines[i];
        if !is_blank_exec(line.as_str()) {
            match decode_line(line.as_str()) {
                Some(e) => {
                    entries.push(e);
                    assert(re_view_seq(entries@) =~= transcript_entries(
                        lv.subrange(0, i as int + 1),
                    ));
                },
                None => {
                    warnings.push(i + 1);
                    assert(Seq::new(warnings@.len(), |j: int| warnings@[j] as int) =~= warned_lines(
                        lv.subrange(0, i as int + 1),
                        1,
                    ));
                },
            }
        }
        assert(re_view_seq(entries@) =~= transcript_entries(lv.subrange(0, i as int + 1)));
        assert(Seq::new(warnings@.len(), |j: int| warnings@[j] as int) =~= warned_lines(
            lv.subrange(0, i as int + 1),
            1,
        ));
        i = i + 1;
    }
    assert(lv.subrange(0, lv.len() as int) =~= lv);
    (entries, warnings)
}

} // verus!
