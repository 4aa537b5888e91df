//! The conversation reducer: consumes raw entries in order and emits
//! the session's conversation, batching tool actions into a pending
//! list that is flushed into one `ToolSummary` entry just before the
//! next conversational turn (and once at the end).

use vstd::prelude::*;
use crate::extract::{extract_content, spec_extract_content};
use crate::model::{
    ConversationEntry, ConversationEntryV, MessageContent, MessageContentV, RawEntry, RawEntryV,
    ToolUseV, ce_view_seq, opt_str_view, re_view, re_view_seq, strs_view, tu_view_seq,
};
use crate::summary::{
    spec_summarize_entry, spec_summarize_tool, summarize_tool_use, summarize_tool_use_from_tool,
};
use crate::text::str_eq;

verus! {

/// The reducer's running state: the conversation so far and the
/// pending batch of tool actions.
pub struct ReduceStateV {
    pub conv: Seq<ConversationEntryV>,
    pub pending: Seq<Seq<char>>,
}

/// A non-empty pending batch becomes one `ToolSummary` entry; an empty
/// one is discarded.
pub open spec fn flushed(conv: Seq<ConversationEntryV>, pending: Seq<Seq<char>>) -> Seq<
    ConversationEntryV,
> {
    if pending.len() > 0 {
        conv.push(ConversationEntryV::ToolSummary { actions: pending })
    } else {
        conv
    }
}

/// The action lines of a list of inline tool invocations, in order,
/// skipping nameless invocations.
pub open spec fn actions_of_tools(ts: Seq<ToolUseV>) -> Seq<Seq<char>>
    decreases ts.len(),
{
    if ts.len() == 0 {
        Seq::empty()
    } else {
        let rest = actions_of_tools(ts.subrange(1, ts.len() as int));
        match spec_summarize_tool(ts[0]) {
            Some(a) => seq![a] + rest,
            None => rest,
        }
    }
}

/// The inline tool invocations carried by an assistant entry.
pub open spec fn inline_actions(e: RawEntryV) -> Seq<Seq<char>> {
    match e.message {
        Some(MessageContentV::Object(o)) => match o.tool_use {
            Some(ts) => actions_of_tools(ts),
            None => Seq::empty(),
        },
        _ => Seq::empty(),
    }
}

/// One reduction step, by entry tag:
/// a "human"/"user" entry flushes the batch, then contributes a turn
/// when its content is non-empty; an "assistant" entry does the same
/// and then starts a new batch from its inline invocations; a
/// "tool_use" entry appends to the batch; everything else is ignored.
pub open spec fn step_state(st: ReduceStateV, e: RawEntryV) -> ReduceStateV {
    if e.entry_type == "human"@ || e.entry_type == "user"@ {
        let conv = flushed(st.conv, st.pending);
        let content = spec_extract_content(e);
        ReduceStateV {
            conv: if content.len() > 0 {
                conv.push(ConversationEntryV::User { timestamp: e.timestamp, content })
            } else {
                conv
            },
            pending: Seq::empty(),
        }
    } else if e.entry_type == "assistant"@ {
        let conv = flushed(st.conv, st.pending);
        let content = spec_extract_content(e);
        ReduceStateV {
            conv: if content.len() > 0 {
                conv.push(ConversationEntryV::Assistant { timestamp: e.timestamp, content })
            } else {
                conv
            },
            pending: inline_actions(e),
        }
    } else if e.entry_type == "tool_use"@ {
        ReduceStateV {
            conv: st.conv,
            pending: match spec_summarize_entry(e) {
                Some(a) => st.pending.push(a),
                None => st.pending,
            },
        }
    } else {
        st
    }
}

/// Runs the remaining entries from a given state.
pub open spec fn reduce_from(es: Seq<RawEntryV>, st: ReduceStateV) -> ReduceStateV
    decreases es.len(),
{
    if es.len() == 0 {
        st
    } else {
        reduce_from(es.subrange(1, es.len() as int), step_state(st, es[0]))
    }
}

/// The conversation produced from a raw entry sequence: all entries
/// reduced from the empty state, then one final flush.
pub open spec fn spec_reduce(es: Seq<RawEntryV>) -> Seq<ConversationEntryV> {
    let st = reduce_from(es, ReduceStateV { conv: Seq::empty(), pending: Seq::empty() });
    flushed(st.conv, st.pending)
}

/// Appending an invocation extends the action lines at the back.
proof fn lemma_actions_push(ts: Seq<ToolUseV>, t: ToolUseV)
    ensures
        actions_of_tools(ts.push(t)) == actions_of_tools(ts) + (match spec_summarize_tool(t) {
            Some(a) => seq![a],
            None => Seq::<Seq<char>>::empty(),
        }),
    decreases ts.len(),
{
    let tail = match spec_summarize_tool(t) {
        Some(a) => seq![a],
        None => Seq::<Seq<char>>::empty(),
    };
    if ts.len() == 0 {
        assert(ts.push(t)[0] == t);
        assert(ts.push(t).subrange(1, 1) =~= Seq::<ToolUseV>::empty());
        assert(actions_of_tools(Seq::<ToolUseV>::empty()) =~= Seq::<Seq<char>>::empty());
        assert(ts =~= Seq::<ToolUseV>::empty());
        assert(actions_of_tools(ts.push(t)) =~= actions_of_tools(ts) + tail);
    } else {
        assert(ts.push(t)[0] == ts[0]);
        assert(ts.push(t).subrange(1, ts.len() as int + 1) =~= ts.subrange(
            1,
            ts.len() as int,
        ).push(t));
        lemma_actions_push(ts.subrange(1, ts.len() as int), t);
        assert(actions_of_tools(ts.push(t)) =~= actions_of_tools(ts) + tail);
    }
}

/// Flushes the pending batch: a non-empty batch is emitted as one
/// `ToolSummary` and cleared; an empty batch is discarded silently.
pub fn flush_tool_summary(conversation: &mut Vec<ConversationEntry>, pending_tools: &mut Vec<String>)
    ensures
        ce_view_seq(final(conversation)@) == flushed(
            ce_view_seq(old(conversation)@),
            strs_view(old(pending_tools)@),
        ),
        final(pending_tools)@.len() == 0,
{
    if pending_tools.len() > 0 {
        let mut actions: Vec<String> = Vec::new();
        let mut i: usize = 0;
        while i < pending_tools.len()
            invariant
                i <= pending_tools@.len(),
                pending_tools@ == old(pending_tools)@,
                actions@.len() == i,
                forall|k: int| 0 <= k < i ==> (#[trigger] actions@[k])@ == pending_tools@[k]@,
            decreases pending_tools@.len() - i,
        {
            let s = pending_tools[i].clone();
            actions.push(s);
            i = i + 1;
        }
        assert(strs_view(actions@) =~= strs_view(old(pending_tools)@));
        pending_tools.clear();
        conversation.push(ConversationEntry::ToolSummary { actions });
        assert(ce_view_seq(conversation@) =~= flushed(
            ce_view_seq(old(conversation)@),
            strs_view(old(pending_tools)@),
        ));
    } else {
        assert(ce_view_seq(conversation@) =~= flushed(
            ce_view_seq(old(conversation)@),
            strs_view(old(pending_tools)@),
        ));
    }
}

/// Copies an optional string.
fn clone_opt_string(o: &Option<String>) -> (r: Option<String>)
    ensures
        opt_str_view(r) == opt_str_view(*o),
{
    match o {
        Some(s) => Some(s.clone()),
        None => None,
    }
}

/// Reduces a session's raw entries, in order, to its conversation.
/// The result is exactly `spec_reduce` of the input images: the same
/// input always yields the identical conversation.
pub fn filter_to_conversation(entries: Vec<RawEntry>) -> (r: Vec<ConversationEntry>)
    ensures
        ce_view_seq(r@) == spec_reduce(re_view_seq(entries@)),
{
    let ghost es = re_view_seq(entries@);
    let mut conversation: Vec<ConversationEntry> = Vec::new();
    let mut pending_tools: Vec<String> = Vec::new();
    let ghost init = ReduceStateV { conv: Seq::empty(), pending: Seq::empty() };
    let mut i: usize = 0;
    proof {
        assert(es.subrange(0, es.len() as int) =~= es);
        assert(es.skip(0) =~= es);
        assert(ce_view_seq(conversation@) =~= init.conv);
        assert(strs_view(pending_tools@) =~= init.pending);
    }
    while i < entries.len()
        invariant
            i <= entries@.len(),
            es == re_view_seq(entries@),
            es.len() == entries@.len(),
            reduce_from(es, init) == reduce_from(
                es.skip(i as int),
                ReduceStateV {
                    conv: ce_view_seq(conversation@),
                    pending: strs_view(pending_tools@),
                },
            ),
        decreases entries@.len() - i,
    {
        let ghost st = ReduceStateV {
            conv: ce_view_seq(conversation@),
            pending: strs_view(pending_tools@),
        };
        let ghost e = es[i as int];
        proof {
            assert(es.skip(i as int)[0] == es[i as int]);
            assert(es.skip(i as int).subrange(1, es.skip(i as int).len() as int) =~= es.skip(
                i as int + 1,
            ));
        }
        let entry = &entries[i];
        assert(re_view(*entry) == e);
        let et = entry.entry_type.as_str();
        if str_eq(et, "human") || str_eq(et, "user") {
            flush_tool_summary(&mut conversation, &mut pending_tools);
            let content = extract_content(entry);
            if content.as_str().unicode_len() > 0 {
                let ts = clone_opt_string(&entry.timestamp);
                conversation.push(ConversationEntry::User { timestamp: ts, content });
            }
            assert(ce_view_seq(conversation@) =~= step_state(st, e).conv);
            assert(strs_view(pending_tools@) =~= step_state(st, e).pending);
        } else if str_eq(et, "assistant") {
            flush_tool_summary(&mut conversation, &mut pending_tools);
            let content = extract_content(entry);
            if content.as_str().unicode_len() > 0 {
                let ts = clone_opt_string(&entry.timestamp);
                conversation.push(ConversationEntry::Assistant { timestamp: ts, content });
            }
            assert(ce_view_seq(conversation@) =~= step_state(st, e).conv);
            match &entry.message {
                Some(MessageContent::Object(o)) => {
                    match &o.tool_use {
                        Some(tools) => {
                            let ghost tsv = tu_view_seq(tools@);
                            let mut j: usize = 0;
                            while j < tools.len()
                                invariant
                                    j <= tools@.len(),
                                    tsv == tu_view_seq(tools@),
                                    tsv.len() == tools@.len(),
                                    strs_view(pending_tools@) == actions_of_tools(
                                        tsv.subrange(0, j as int),
                                    ),
                                decreases tools@.len() - j,
                            {
                                proof {
                                    assert(tsv.subrange(0, j as int + 1) =~= tsv.subrange(
                                        0,
                                        j as int,
                                    ).push(tsv[j as int]));
                                    lemma_actions_push(tsv.subrange(0, j as int), tsv[j as int]);
                                }
                                let t = &tools[j];
                                match summarize_tool_use_from_tool(t) {
                                    Some(action) => {
                                        pending_tools.push(action);
                                    },
                                    None => {},
                                }
                                assert(strs_view(pending_tools@) =~= actions_of_tools(
                                    tsv.subrange(0, j as int + 1),
                                ));
                                j = j + 1;
                            }
                            assert(tsv.subrange(0, tsv.len() as int) =~= tsv);
                        },
                        None => {},
                    }
                },
                _ => {},
            }
            assert(strs_view(pending_tools@) =~= step_state(st, e).pending);
        } else if str_eq(et, "tool_use") {
            match summarize_tool_use(entry) {
                Some(action) => {
                    pending_tools.push(action);
                    assert(strs_view(pending_tools@) =~= step_state(st, e).pending);
                },
                None => {
                    assert(strs_view(pending_tools@) =~= step_state(st, e).pending);
                },
            }
            assert(ce_view_seq(conversation@) =~= step_state(st, e).conv);
        } else {
            assert(ce_view_seq(conversation@) =~= step_state(st, e).conv);
            assert(strs_view(pending_tools@) =~= step_state(st, e).pending);
        }
        i = i + 1;
    }
    proof {
        assert(es.skip(es.len() as int).len() == 0);
    }
    flush_tool_summary(&mut conversation, &mut pending_tools);
    conversation
}

/// A conversation in which every `ToolSummary` is non-empty and no
/// `ToolSummary` directly follows another.
pub open spec fn summaries_nonempty(conv: Seq<ConversationEntryV>) -> bool {
    forall|i: int|
        0 <= i < conv.len() ==> ((#[trigger] conv[i]) matches ConversationEntryV::ToolSummary {
            actions,
        } ==> actions.len() > 0)
}

/// No `ToolSummary` directly follows another.
pub open spec fn summaries_separated(conv: Seq<ConversationEntryV>) -> bool {
    forall|i: int|
        0 <= i < conv.len() - 1 ==> !((#[trigger] conv[i]) is ToolSummary && conv[i + 1]
            is ToolSummary)
}

/// The conversation never ends in a `ToolSummary` while entries are
/// still being reduced; used to carry `summaries_separated` through.
spec fn state_separated(st: ReduceStateV) -> bool {
    summaries_separated(st.conv) && (st.conv.len() > 0 ==> !(st.conv.last() is ToolSummary))
}

proof fn lemma_reduce_from_nonempty(es: Seq<RawEntryV>, st: ReduceStateV)
    requires
        summaries_nonempty(st.conv),
    ensures
        summaries_nonempty(reduce_from(es, st).conv),
    decreases es.len(),
{
    if es.len() > 0 {
        let st2 = step_state(st, es[0]);
        assert(summaries_nonempty(st2.conv));
        lemma_reduce_from_nonempty(es.subrange(1, es.len() as int), st2);
    }
}

/// Law: no `ToolSummary` the reducer emits has an empty actions list.
pub proof fn lemma_no_empty_summary(es: Seq<RawEntryV>)
    ensures
        summaries_nonempty(spec_reduce(es)),
{
    let init = ReduceStateV { conv: Seq::empty(), pending: Seq::empty() };
    lemma_reduce_from_nonempty(es, init);
}

/// Entries of the given tags always carry non-empty extracted content.
pub open spec fn turns_have_content(es: Seq<RawEntryV>) -> bool {
    forall|i: int|
        0 <= i < es.len() ==> (((#[trigger] es[i]).entry_type == "human"@ || es[i].entry_type
            == "user"@ || es[i].entry_type == "assistant"@) ==> spec_extract_content(es[i]).len()
            > 0)
}

proof fn lemma_reduce_from_separated(es: Seq<RawEntryV>, st: ReduceStateV)
    requires
        state_separated(st),
        turns_have_content(es),
    ensures
        state_separated(reduce_from(es, st)),
    decreases es.len(),
{
    if es.len() > 0 {
        let e = es[0];
        let st2 = step_state(st, e);
        assert(state_separated(st2)) by {
            if e.entry_type == "human"@ || e.entry_type == "user"@ || e.entry_type
                == "assistant"@ {
                assert(spec_extract_content(e).len() > 0);
            }
        }
        assert(turns_have_content(es.subrange(1, es.len() as int))) by {
            assert(forall|i: int|
                0 <= i < es.len() - 1 ==> #[trigger] es.subrange(1, es.len() as int)[i] == es[i
                    + 1]);
        }
        lemma_reduce_from_separated(es.subrange(1, es.len() as int), st2);
    }
}

/// Law: as long as every conversational turn in the input carries
/// non-empty content, no `ToolSummary` in the output directly follows
/// another; batches are merged, never split.  (An input with an
/// empty-content turn between two tool invocations splits the batch
/// without emitting a separating turn, so such inputs are excluded.)
pub proof fn lemma_summaries_separated(es: Seq<RawEntryV>)
    requires
        turns_have_content(es),
    ensures
        summaries_separated(spec_reduce(es)),
{
    let init = ReduceStateV { conv: Seq::empty(), pending: Seq::empty() };
    lemma_reduce_from_separated(es, init);
    let st = reduce_from(es, init);
    assert(summaries_separated(flushed(st.conv, st.pending)));
}

/// Law: the reducer is deterministic; re-running it on the same raw
/// entry sequence yields the identical conversation.
pub proof fn lemma_reduce_deterministic(a: Seq<RawEntryV>, b: Seq<RawEntryV>)
    requires
        a == b,
    ensures
        spec_reduce(a) == spec_reduce(b),
{
}

/// The tool actions a conversation carries: every batch's actions,
/// concatenated in order.
pub open spec fn all_actions(conv: Seq<ConversationEntryV>) -> Seq<Seq<char>>
    decreases conv.len(),
{
    if conv.len() == 0 {
        Seq::empty()
    } else {
        (match conv[0] {
            ConversationEntryV::ToolSummary { actions } => actions,
            _ => Seq::empty(),
        }) + all_actions(conv.subrange(1, conv.len() as int))
    }
}

/// The action lines one raw entry contributes: its own summary for a
/// standalone "tool_use" entry, its inline invocations' lines for an
/// assistant entry, nothing otherwise.
pub open spec fn entry_actions(e: RawEntryV) -> Seq<Seq<char>> {
    if e.entry_type == "tool_use"@ {
        match spec_summarize_entry(e) {
            Some(a) => seq![a],
            None => Seq::empty(),
        }
    } else if e.entry_type == "assistant"@ {
        inline_actions(e)
    } else {
        Seq::empty()
    }
}

/// The action lines of a whole entry sequence, in input order.
pub open spec fn all_entry_actions(es: Seq<RawEntryV>) -> Seq<Seq<char>>
    decreases es.len(),
{
    if es.len() == 0 {
        Seq::empty()
    } else {
        entry_actions(es[0]) + all_entry_actions(es.subrange(1, es.len() as int))
    }
}

/// Appending an entry extends the carried actions at the back.
proof fn lemma_all_actions_push(conv: Seq<ConversationEntryV>, c: ConversationEntryV)
    ensures
        all_actions(conv.push(c)) == all_actions(conv) + (match c {
            ConversationEntryV::ToolSummary { actions } => actions,
            _ => Seq::<Seq<char>>::empty(),
        }),
    decreases conv.len(),
{
    let tail = match c {
        ConversationEntryV::ToolSummary { actions } => actions,
        _ => Seq::<Seq<char>>::empty(),
    };
    if conv.len() == 0 {
        assert(conv.push(c)[0] == c);
        assert(conv.push(c).subrange(1, 1) =~= Seq::<ConversationEntryV>::empty());
        assert(all_actions(Seq::<ConversationEntryV>::empty()) =~= Seq::<Seq<char>>::empty());
        assert(conv =~= Seq::<ConversationEntryV>::empty());
        assert(all_actions(conv.push(c)) =~= all_actions(conv) + tail);
    } else {
        assert(conv.push(c)[0] == conv[0]);
        assert(conv.push(c).subrange(1, conv.len() as int + 1) =~= conv.subrange(
            1,
            conv.len() as int,
        ).push(c));
        lemma_all_actions_push(conv.subrange(1, conv.len() as int), c);
        assert(all_actions(conv.push(c)) =~= all_actions(conv) + tail);
    }
}

/// Flushing moves the pending batch into the carried actions.
proof fn lemma_all_actions_flushed(conv: Seq<ConversationEntryV>, pending: Seq<Seq<char>>)
    ensures
        all_actions(flushed(conv, pending)) == all_actions(conv) + pending,
{
    if pending.len() > 0 {
        lemma_all_actions_push(conv, ConversationEntryV::ToolSummary { actions: pending });
    } else {
        assert(all_actions(conv) + pending =~= all_actions(conv));
    }
}

/// Reducing carries exactly the input's action lines: what the
/// conversation holds plus what is still pending grows by each
/// entry's own contribution.
proof fn lemma_reduce_from_actions(es: Seq<RawEntryV>, st: ReduceStateV)
    ensures
        all_actions(reduce_from(es, st).conv) + reduce_from(es, st).pending == all_actions(st.conv)
            + st.pending + all_entry_actions(es),
    decreases es.len(),
{
    reveal_strlit("human");
    reveal_strlit("user");
    reveal_strlit("assistant");
    reveal_strlit("tool_use");
    assert("human"@.len() == 5 && "user"@.len() == 4 && "assistant"@.len() == 9 && "tool_use"@.len()
        == 8);
    if es.len() == 0 {
        assert(all_actions(st.conv) + st.pending + all_entry_actions(es) =~= all_actions(st.conv)
            + st.pending);
    } else {
        let e = es[0];
        let st2 = step_state(st, e);
        lemma_all_actions_flushed(st.conv, st.pending);
        assert(all_actions(st2.conv) + st2.pending =~= all_actions(st.conv) + st.pending
            + entry_actions(e)) by {
            if e.entry_type == "human"@ || e.entry_type == "user"@ {
                let conv = flushed(st.conv, st.pending);
                if spec_extract_content(e).len() > 0 {
                    lemma_all_actions_push(
                        conv,
                        ConversationEntryV::User {
                            timestamp: e.timestamp,
                            content: spec_extract_content(e),
                        },
                    );
                }
            } else if e.entry_type == "assistant"@ {
                let conv = flushed(st.conv, st.pending);
                if spec_extract_content(e).len() > 0 {
                    lemma_all_actions_push(
                        conv,
                        ConversationEntryV::Assistant {
                            timestamp: e.timestamp,
                            content: spec_extract_content(e),
                        },
                    );
                }
            } else if e.entry_type == "tool_use"@ {
                match spec_summarize_entry(e) {
                    Some(a) => {
                        assert(st.pending.push(a) =~= st.pending + seq![a]);
                    },
                    None => {},
                }
            } else {
            }
        }
        let rest = es.subrange(1, es.len() as int);
        lemma_reduce_from_actions(rest, st2);
        assert(all_actions(reduce_from(es, st).conv) + reduce_from(es, st).pending =~= all_actions(
            st.conv,
        ) + st.pending + all_entry_actions(es));
    }
}

/// Law: the conversation's tool batches carry exactly the action
/// lines of the input's tool invocations — standalone "tool_use"
/// entries and assistants' inline invocations alike — in input order:
/// batches are regrouped, never reordered, dropped or invented.
pub proof fn lemma_actions_complete(es: Seq<RawEntryV>)
    ensures
        all_actions(spec_reduce(es)) == all_entry_actions(es),
{
    let init = ReduceStateV { conv: Seq::empty(), pending: Seq::empty() };
    lemma_reduce_from_actions(es, init);
    let fin = reduce_from(es, init);
    lemma_all_actions_flushed(fin.conv, fin.pending);
    assert(all_actions(Seq::<ConversationEntryV>::empty()) =~= Seq::<Seq<char>>::empty());
    assert(all_actions(spec_reduce(es)) =~= all_entry_actions(es));
}

} // verus!
