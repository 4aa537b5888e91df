//! The statistics aggregator: per-session usage counters, grouped by
//! machine and project, and re-grouped by project alone with the
//! contributing machines joined into one label.

use vstd::prelude::*;
use crate::clock::{cutoff_for_days, parse_rfc3339_millis, spec_cutoff};
use crate::model::{ConversationEntry, ConversationEntryV, ce_view, strs_view};
use crate::output::{DevlogOutput, dv_view, deserialize_record};
use crate::search::{CorpusFile, CorpusFileV, cf_view, cf_view_seq, passes_date};
use crate::text::{
    chars_of, count_words_vec, has_prefix, lex_le, starts_with, str_eq, str_le, string_of,
    word_count,
};
use vstd::string::StrSliceExecFns;

verus! {

/// Usage counters for one (machine, project) group, or for one
/// project with machines merged.
#[derive(Debug, PartialEq)]
pub struct ProjectStats {
    pub machine: String,
    pub project: String,
    pub session_count: usize,
    pub prompt_count: usize,
    pub tool_calls: usize,
    pub files_touched: usize,
    pub prompt_words: usize,
    pub response_words: usize,
    pub last_activity: String,
}

/// The image of one stats row.
#[verifier::ext_equal]
pub struct ProjectStatsV {
    pub machine: Seq<char>,
    pub project: Seq<char>,
    pub session_count: int,
    pub prompt_count: int,
    pub tool_calls: int,
    pub files_touched: int,
    pub prompt_words: int,
    pub response_words: int,
    pub last_activity: Seq<char>,
}

/// Image of one stats row.
pub open spec fn ps_view(p: ProjectStats) -> ProjectStatsV {
    ProjectStatsV {
        machine: p.machine@,
        project: p.project@,
        session_count: p.session_count as int,
        prompt_count: p.prompt_count as int,
        tool_calls: p.tool_calls as int,
        files_touched: p.files_touched as int,
        prompt_words: p.prompt_words as int,
        response_words: p.response_words as int,
        last_activity: p.last_activity@,
    }
}

/// Image of a stats list.
pub open spec fn pss_view(ps: Seq<ProjectStats>) -> Seq<ProjectStatsV> {
    Seq::new(ps.len(), |i: int| ps_view(ps[i]))
}

/// Addition on counters, saturating at the machine's limit.
pub open spec fn sat_add(a: int, b: int) -> int {
    if a + b > usize::MAX {
        usize::MAX as int
    } else {
        a + b
    }
}

/// Saturating counter addition.
pub fn add_sat(a: usize, b: usize) -> (r: usize)
    ensures
        r as int == sat_add(a as int, b as int),
{
    if a > usize::MAX - b {
        usize::MAX
    } else {
        a + b
    }
}

/// Counts whitespace-delimited words of a text.
pub fn count_words(text: &str) -> (r: usize)
    ensures
        r == word_count(text@),
{
    let v = chars_of(text);
    count_words_vec(&v)
}

/// The file path named by a tool action line, if the line records an
/// edit, read or creation: the text after the verb's prefix.
pub open spec fn spec_file_of_action(a: Seq<char>) -> Option<Seq<char>> {
    if has_prefix(a, "edited "@) {
        Some(a.skip(7))
    } else if has_prefix(a, "read "@) {
        Some(a.skip(5))
    } else if has_prefix(a, "created "@) {
        Some(a.skip(8))
    } else {
        None
    }
}

/// Extracts the file path a tool action line touches, if any.
pub fn extract_file_from_action(action: &str) -> (r: Option<String>)
    ensures
        match r {
            Some(f) => spec_file_of_action(action@) == Some(f@),
            None => spec_file_of_action(action@) is None,
        },
{
    let av = chars_of(action);
    let e = chars_of("edited ");
    let rd = chars_of("read ");
    let c = chars_of("created ");
    let prefix_len: usize = if starts_with(&av, &e) {
        proof {
            reveal_strlit("edited ");
        }
        7
    } else if starts_with(&av, &rd) {
        proof {
            reveal_strlit("read ");
        }
        5
    } else if starts_with(&av, &c) {
        proof {
            reveal_strlit("created ");
        }
        8
    } else {
        return None;
    };
    let mut w: Vec<char> = Vec::new();
    let mut i: usize = prefix_len;
    while i < av.len()
        invariant
            prefix_len <= i <= av@.len(),
            av@ == action@,
            w@ == action@.subrange(prefix_len as int, i as int),
        decreases av@.len() - i,
    {
        w.push(av[i]);
        assert(w@ =~= action@.subrange(prefix_len as int, i + 1));
        i = i + 1;
    }
    assert(w@ =~= action@.skip(prefix_len as int));
    Some(string_of(&w))
}

/// Counters gathered from one session's conversation.
#[derive(Debug, PartialEq)]
pub struct SessionStats {
    pub prompts: usize,
    pub tool_calls: usize,
    pub files_touched: usize,
    pub prompt_words: usize,
    pub response_words: usize,
}

/// The running per-session analysis state: counters plus the distinct
/// files seen so far, in first-seen order.
#[verifier::ext_equal]
pub struct SessionStateV {
    pub prompts: int,
    pub tool_calls: int,
    pub files: Seq<Seq<char>>,
    pub prompt_words: int,
    pub response_words: int,
}

/// Adds a file to the distinct list unless it is already there.
pub open spec fn insert_file(files: Seq<Seq<char>>, f: Seq<char>) -> Seq<Seq<char>> {
    if files.contains(f) {
        files
    } else {
        files.push(f)
    }
}

/// Folds the files of a batch's action lines into the distinct list.
pub open spec fn files_fold(files: Seq<Seq<char>>, actions: Seq<Seq<char>>) -> Seq<Seq<char>>
    decreases actions.len(),
{
    if actions.len() == 0 {
        files
    } else {
        let next = match spec_file_of_action(actions[0]) {
            Some(f) => insert_file(files, f),
            None => files,
        };
        files_fold(next, actions.subrange(1, actions.len() as int))
    }
}

/// One analysis step: a user turn counts a prompt and its words, an
/// assistant turn counts its words, a tool batch counts its actions
/// and collects the files they touch.
pub open spec fn session_step(st: SessionStateV, c: ConversationEntryV) -> SessionStateV {
    match c {
        ConversationEntryV::User { content, .. } => SessionStateV {
            prompts: sat_add(st.prompts, 1),
            prompt_words: sat_add(st.prompt_words, word_count(content) as int),
            ..st
        },
        ConversationEntryV::Assistant { content, .. } => SessionStateV {
            response_words: sat_add(st.response_words, word_count(content) as int),
            ..st
        },
        ConversationEntryV::ToolSummary { actions } => SessionStateV {
            tool_calls: sat_add(st.tool_calls, actions.len() as int),
            files: files_fold(st.files, actions),
            ..st
        },
    }
}

/// Folds a conversation through the analysis, in order.
pub open spec fn session_fold(conv: Seq<ConversationEntryV>, st: SessionStateV) -> SessionStateV
    decreases conv.len(),
{
    if conv.len() == 0 {
        st
    } else {
        session_fold(conv.subrange(1, conv.len() as int), session_step(st, conv[0]))
    }
}

/// The analysis of one conversation, from the empty state.
pub open spec fn spec_analyze(conv: Seq<ConversationEntryV>) -> SessionStateV {
    session_fold(
        conv,
        SessionStateV {
            prompts: 0,
            tool_calls: 0,
            files: Seq::empty(),
            prompt_words: 0,
            response_words: 0,
        },
    )
}

/// Tests whether a file list already holds a path.
fn files_contain(files: &Vec<String>, f: &str) -> (r: bool)
    ensures
        r == strs_view(files@).contains(f@),
{
    let mut i: usize = 0;
    while i < files.len()
        invariant
            i <= files@.len(),
            forall|k: int| 0 <= k < i ==> strs_view(files@)[k] != f@,
        decreases files@.len() - i,
    {
        assert(strs_view(files@)[i as int] == files@[i as int]@);
        if str_eq(files[i].as_str(), f) {
            assert(strs_view(files@)[i as int] == f@);
            return true;
        }
        i = i + 1;
    }
    assert(!strs_view(files@).contains(f@));
    false
}

/// Analyzes one session: prompt and word counts, tool calls, and the
/// number of distinct files its tool actions touched.
#[verifier::loop_isolation(false)]
pub fn analyze_session(devlog: &DevlogOutput) -> (r: SessionStats)
    ensures
        ({
            let st = spec_analyze(dv_view(*devlog).conversation);
            r.prompts as int == st.prompts && r.tool_calls as int == st.tool_calls
                && r.files_touched as int == st.files.len() && r.prompt_words as int
                == st.prompt_words && r.response_words as int == st.response_words
        }),
{
    let ghost conv = dv_view(*devlog).conversation;
    let ghost init = SessionStateV {
        prompts: 0,
        tool_calls: 0,
        files: Seq::empty(),
        prompt_words: 0,
        response_words: 0,
    };
    let mut prompts: usize = 0;
    let mut tool_calls: usize = 0;
    let mut files: Vec<String> = Vec::new();
    let mut prompt_words: usize = 0;
    let mut response_words: usize = 0;
    let mut i: usize = 0;
    proof {
        assert(conv.skip(0) =~= conv);
        assert(strs_view(files@) =~= Seq::<Seq<char>>::empty());
    }
    while i < devlog.conversation.len()
        invariant
            i <= devlog.conversation@.len(),
            session_fold(conv, init) == session_fold(
                conv.skip(i as int),
                SessionStateV {
                    prompts: prompts as int,
                    tool_calls: tool_calls as int,
                    files: strs_view(files@),
                    prompt_words: prompt_words as int,
                    response_words: response_words as int,
                },
            ),
        decreases devlog.conversation@.len() - i,
    {
        let ghost st = SessionStateV {
            prompts: prompts as int,
            tool_calls: tool_calls as int,
            files: strs_view(files@),
            prompt_words: prompt_words as int,
            response_words: response_words as int,
        };
        proof {
            assert(conv.skip(i as int)[0] == conv[i as int]);
            assert(conv.skip(i as int).subrange(1, conv.skip(i as int).len() as int) =~= conv.skip(
                i as int + 1,
            ));
            assert(ce_view(devlog.conversation@[i as int]) == conv[i as int]);
        }
        match &devlog.conversation[i] {
            ConversationEntry::User { content, .. } => {
                prompts = add_sat(prompts, 1);
                let w = count_words(content.as_str());
                prompt_words = add_sat(prompt_words, w);
            },
            ConversationEntry::Assistant { content, .. } => {
                let w = count_words(content.as_str());
                response_words = add_sat(response_words, w);
            },
            ConversationEntry::ToolSummary { actions } => {
                tool_calls = add_sat(tool_calls, actions.len());
                let ghost acts = strs_view(actions@);
                let mut j: usize = 0;
                proof {
                    assert(acts.skip(0) =~= acts);
                }
                while j < actions.len()
                    invariant
                        j <= actions@.len(),
                        acts == strs_view(actions@),
                        acts.len() == actions@.len(),
                        files_fold(st.files, acts) == files_fold(
                            strs_view(files@),
                            acts.skip(j as int),
                        ),
                    decreases actions@.len() - j,
                {
                    proof {
                        assert(acts.skip(j as int)[0] == acts[j as int]);
                        assert(acts.skip(j as int).subrange(
                            1,
                            acts.skip(j as int).len() as int,
                        ) =~= acts.skip(j as int + 1));
                        assert(actions@[j as int]@ == acts[j as int]);
                    }
                    match extract_file_from_action(actions[j].as_str()) {
                        Some(f) => {
                            let ghost fv = f@;
                            if !files_contain(&files, f.as_str()) {
                                let ghost old_files = strs_view(files@);
                                files.push(f);
                                assert(strs_view(files@) =~= old_files.push(fv));
                            }
                        },
                        None => {},
                    }
                    j = j + 1;
                }
                proof {
                    assert(acts.skip(acts.len() as int).len() == 0);
                }
            },
        }
        i = i + 1;
    }
    proof {
        assert(conv.skip(conv.len() as int).len() == 0);
    }
    SessionStats {
        prompts,
        tool_calls,
        files_touched: files.len(),
        prompt_words,
        response_words,
    }
}


/// A zeroed row for a new (machine, project) group.
pub open spec fn zero_row(machine: Seq<char>, project: Seq<char>) -> ProjectStatsV {
    ProjectStatsV {
        machine,
        project,
        session_count: 0,
        prompt_count: 0,
        tool_calls: 0,
        files_touched: 0,
        prompt_words: 0,
        response_words: 0,
        last_activity: Seq::empty(),
    }
}

/// Adds one session's counters into a row; the latest timestamp wins.
pub open spec fn merge_row(
    row: ProjectStatsV,
    prompts: int,
    tool_calls: int,
    files_touched: int,
    prompt_words: int,
    response_words: int,
    ts: Seq<char>,
) -> ProjectStatsV {
    ProjectStatsV {
        machine: row.machine,
        project: row.project,
        session_count: sat_add(row.session_count, 1),
        prompt_count: sat_add(row.prompt_count, prompts),
        tool_calls: sat_add(row.tool_calls, tool_calls),
        files_touched: sat_add(row.files_touched, files_touched),
        prompt_words: sat_add(row.prompt_words, prompt_words),
        response_words: sat_add(row.response_words, response_words),
        last_activity: if lex_le(ts, row.last_activity) {
            row.last_activity
        } else {
            ts
        },
    }
}

/// The first group with the given machine and project, or -1.
pub open spec fn find_group(groups: Seq<ProjectStatsV>, machine: Seq<char>, project: Seq<char>) -> int
    decreases groups.len(),
{
    if groups.len() == 0 {
        -1
    } else if groups[0].machine == machine && groups[0].project == project {
        0
    } else {
        let r = find_group(groups.subrange(1, groups.len() as int), machine, project);
        if r == -1 {
            -1
        } else {
            r + 1
        }
    }
}

/// Accounts one session to its (machine, project) group, creating the
/// group on first sight.
pub open spec fn add_session(
    groups: Seq<ProjectStatsV>,
    machine: Seq<char>,
    project: Seq<char>,
    st: SessionStateV,
    ts: Seq<char>,
) -> Seq<ProjectStatsV> {
    let i = find_group(groups, machine, project);
    if i == -1 {
        groups.push(
            merge_row(
                zero_row(machine, project),
                st.prompts,
                st.tool_calls,
                st.files.len() as int,
                st.prompt_words,
                st.response_words,
                ts,
            ),
        )
    } else {
        groups.update(
            i,
            merge_row(
                groups[i],
                st.prompts,
                st.tool_calls,
                st.files.len() as int,
                st.prompt_words,
                st.response_words,
                ts,
            ),
        )
    }
}

/// Folds a corpus into (machine, project) groups: a file whose text
/// is no record is skipped, a record older than the cutoff is
/// skipped, and a record whose timestamp does not parse is kept.
pub open spec fn stats_fold(
    files: Seq<CorpusFileV>,
    cutoff: i64,
    groups: Seq<ProjectStatsV>,
) -> Seq<ProjectStatsV>
    decreases files.len(),
{
    if files.len() == 0 {
        groups
    } else {
        let g2 = match crate::output::record_of_text(files[0].text) {
            Some(rec) => if passes_date(rec.timestamp, Some(cutoff)) {
                add_session(
                    groups,
                    files[0].machine,
                    files[0].project,
                    spec_analyze(rec.conversation),
                    rec.timestamp,
                )
            } else {
                groups
            },
            None => groups,
        };
        stats_fold(files.subrange(1, files.len() as int), cutoff, g2)
    }
}

/// Inserts a row into a list sorted by prompt count descending, after
/// any row with the same count: a stable insertion.
pub open spec fn insert_row(sorted: Seq<ProjectStatsV>, x: ProjectStatsV) -> Seq<ProjectStatsV>
    decreases sorted.len(),
{
    if sorted.len() == 0 {
        seq![x]
    } else if x.prompt_count > sorted[0].prompt_count {
        seq![x] + sorted
    } else {
        seq![sorted[0]] + insert_row(sorted.subrange(1, sorted.len() as int), x)
    }
}

/// Sorts rows by prompt count descending, stably.
pub open spec fn sort_rows(s: Seq<ProjectStatsV>) -> Seq<ProjectStatsV>
    decreases s.len(),
{
    if s.len() == 0 {
        Seq::empty()
    } else {
        insert_row(sort_rows(s.subrange(0, s.len() - 1)), s[s.len() - 1])
    }
}

/// The level-one statistics: one row per (machine, project), sorted
/// by prompt count descending.
pub open spec fn spec_stats(files: Seq<CorpusFileV>, cutoff: i64) -> Seq<ProjectStatsV> {
    sort_rows(stats_fold(files, cutoff, Seq::empty()))
}

/// The running accumulator for one project-level group: its summed
/// counters and the distinct contributing machines, in first-seen
/// order.
#[verifier::ext_equal]
pub struct GroupAccV {
    pub project: Seq<char>,
    pub machines: Seq<Seq<char>>,
    pub session_count: int,
    pub prompt_count: int,
    pub tool_calls: int,
    pub files_touched: int,
    pub prompt_words: int,
    pub response_words: int,
    pub last_activity: Seq<char>,
}

/// A fresh project-level accumulator.
pub open spec fn zero_acc(project: Seq<char>) -> GroupAccV {
    GroupAccV {
        project,
        machines: Seq::empty(),
        session_count: 0,
        prompt_count: 0,
        tool_calls: 0,
        files_touched: 0,
        prompt_words: 0,
        response_words: 0,
        last_activity: Seq::empty(),
    }
}

/// Lists a machine unless the same name is already listed.
pub open spec fn add_machine(machines: Seq<Seq<char>>, m: Seq<char>) -> Seq<Seq<char>> {
    if machines.contains(m) {
        machines
    } else {
        machines.push(m)
    }
}

/// Merges one level-one row into a project-level accumulator.
pub open spec fn merge_acc(acc: GroupAccV, x: ProjectStatsV) -> GroupAccV {
    GroupAccV {
        project: acc.project,
        machines: add_machine(acc.machines, x.machine),
        session_count: sat_add(acc.session_count, x.session_count),
        prompt_count: sat_add(acc.prompt_count, x.prompt_count),
        tool_calls: sat_add(acc.tool_calls, x.tool_calls),
        files_touched: sat_add(acc.files_touched, x.files_touched),
        prompt_words: sat_add(acc.prompt_words, x.prompt_words),
        response_words: sat_add(acc.response_words, x.response_words),
        last_activity: if lex_le(x.last_activity, acc.last_activity) {
            acc.last_activity
        } else {
            x.last_activity
        },
    }
}

/// The first accumulator for the given project, or -1.
pub open spec fn find_acc(accs: Seq<GroupAccV>, project: Seq<char>) -> int
    decreases accs.len(),
{
    if accs.len() == 0 {
        -1
    } else if accs[0].project == project {
        0
    } else {
        let r = find_acc(accs.subrange(1, accs.len() as int), project);
        if r == -1 {
            -1
        } else {
            r + 1
        }
    }
}

/// Folds level-one rows into project-level accumulators, in order.
pub open spec fn group_fold(rows: Seq<ProjectStatsV>, accs: Seq<GroupAccV>) -> Seq<GroupAccV>
    decreases rows.len(),
{
    if rows.len() == 0 {
        accs
    } else {
        let i = find_acc(accs, rows[0].project);
        let g2 = if i == -1 {
            accs.push(merge_acc(zero_acc(rows[0].project), rows[0]))
        } else {
            accs.update(i, merge_acc(accs[i], rows[0]))
        };
        group_fold(rows.subrange(1, rows.len() as int), g2)
    }
}

/// The row an accumulator yields: its machine label names each
/// contributing machine exactly once, joined by ", ".
pub open spec fn acc_row(acc: GroupAccV) -> ProjectStatsV {
    ProjectStatsV {
        machine: crate::search::join_sep(acc.machines, ", "@),
        project: acc.project,
        session_count: acc.session_count,
        prompt_count: acc.prompt_count,
        tool_calls: acc.tool_calls,
        files_touched: acc.files_touched,
        prompt_words: acc.prompt_words,
        response_words: acc.response_words,
        last_activity: acc.last_activity,
    }
}

/// The rows of all accumulators.
pub open spec fn accs_rows(accs: Seq<GroupAccV>) -> Seq<ProjectStatsV> {
    Seq::new(accs.len(), |i: int| acc_row(accs[i]))
}

/// The level-two statistics: level one re-grouped by project alone,
/// machines merged, sorted by prompt count descending.
pub open spec fn spec_grouped(files: Seq<CorpusFileV>, cutoff: i64) -> Seq<ProjectStatsV> {
    sort_rows(accs_rows(group_fold(spec_stats(files, cutoff), Seq::empty())))
}


/// The found index is -1 or a valid position.
proof fn lemma_find_group_range(groups: Seq<ProjectStatsV>, machine: Seq<char>, project: Seq<char>)
    ensures
        find_group(groups, machine, project) == -1 || (0 <= find_group(groups, machine, project)
            < groups.len()),
    decreases groups.len(),
{
    if groups.len() > 0 {
        lemma_find_group_range(groups.subrange(1, groups.len() as int), machine, project);
    }
}

/// The found index is -1 or a valid position naming the project.
proof fn lemma_find_acc_range(accs: Seq<GroupAccV>, project: Seq<char>)
    ensures
        find_acc(accs, project) == -1 || (0 <= find_acc(accs, project) < accs.len() && accs[
            find_acc(accs, project)
        ].project == project),
    decreases accs.len(),
{
    if accs.len() > 0 {
        lemma_find_acc_range(accs.subrange(1, accs.len() as int), project);
    }
}

/// Finds a (machine, project) group in the accumulator.
fn find_group_exec(groups: &Vec<ProjectStats>, machine: &str, project: &str) -> (r: Option<usize>)
    ensures
        match r {
            Some(i) => 0 <= i < groups@.len() && find_group(pss_view(groups@), machine@, project@)
                == i as int,
            None => find_group(pss_view(groups@), machine@, project@) == -1,
        },
{
    let ghost gv = pss_view(groups@);
    let mut i: usize = 0;
    proof {
        assert(gv.skip(0) =~= gv);
    }
    while i < groups.len()
        invariant
            i <= groups@.len(),
            gv == pss_view(groups@),
            gv.len() == groups@.len(),
            find_group(gv, machine@, project@) == (if find_group(
                gv.skip(i as int),
                machine@,
                project@,
            ) == -1 {
                -1
            } else {
                find_group(gv.skip(i as int), machine@, project@) + i
            }),
        decreases groups@.len() - i,
    {
        proof {
            assert(gv.skip(i as int)[0] == gv[i as int]);
            assert(gv.skip(i as int).subrange(1, gv.skip(i as int).len() as int) =~= gv.skip(
                i as int + 1,
            ));
        }
        let g = &groups[i];
        assert(ps_view(*g) == gv[i as int]);
        if str_eq(g.machine.as_str(), machine) && str_eq(g.project.as_str(), project) {
            assert(find_group(gv.skip(i as int), machine@, project@) == 0);
            return Some(i);
        }
        proof {
            lemma_find_group_range(gv.skip(i as int + 1), machine@, project@);
        }
        assert(find_group(gv.skip(i as int), machine@, project@) == (if find_group(
            gv.skip(i as int + 1),
            machine@,
            project@,
        ) == -1 {
            -1
        } else {
            find_group(gv.skip(i as int + 1), machine@, project@) + 1
        }));
        i = i + 1;
    }
    proof {
        assert(gv.skip(gv.len() as int).len() == 0);
    }
    None
}

/// The executable project-level accumulator.
struct GroupAcc {
    project: String,
    machines: Vec<String>,
    session_count: usize,
    prompt_count: usize,
    tool_calls: usize,
    files_touched: usize,
    prompt_words: usize,
    response_words: usize,
    last_activity: String,
}

/// Image of one executable accumulator.
spec fn ga_view(g: GroupAcc) -> GroupAccV {
    GroupAccV {
        project: g.project@,
        machines: strs_view(g.machines@),
        session_count: g.session_count as int,
        prompt_count: g.prompt_count as int,
        tool_calls: g.tool_calls as int,
        files_touched: g.files_touched as int,
        prompt_words: g.prompt_words as int,
        response_words: g.response_words as int,
        last_activity: g.last_activity@,
    }
}

/// Image of the accumulator list.
spec fn gas_view(gs: Seq<GroupAcc>) -> Seq<GroupAccV> {
    Seq::new(gs.len(), |i: int| ga_view(gs[i]))
}

/// Finds a project's accumulator.
fn find_acc_exec(accs: &Vec<GroupAcc>, project: &str) -> (r: Option<usize>)
    ensures
        match r {
            Some(i) => 0 <= i < accs@.len() && find_acc(gas_view(accs@), project@) == i as int,
            None => find_acc(gas_view(accs@), project@) == -1,
        },
{
    let ghost gv = gas_view(accs@);
    let mut i: usize = 0;
    proof {
        assert(gv.skip(0) =~= gv);
    }
    while i < accs.len()
        invariant
            i <= accs@.len(),
            gv == gas_view(accs@),
            gv.len() == accs@.len(),
            find_acc(gv, project@) == (if find_acc(gv.skip(i as int), project@) == -1 {
                -1
            } else {
                find_acc(gv.skip(i as int), project@) + i
            }),
        decreases accs@.len() - i,
    {
        proof {
            assert(gv.skip(i as int)[0] == gv[i as int]);
            assert(gv.skip(i as int).subrange(1, gv.skip(i as int).len() as int) =~= gv.skip(
                i as int + 1,
            ));
        }
        let g = &accs[i];
        assert(ga_view(*g) == gv[i as int]);
        if str_eq(g.project.as_str(), project) {
            assert(find_acc(gv.skip(i as int), project@) == 0);
            return Some(i);
        }
        proof {
            lemma_find_acc_range(gv.skip(i as int + 1), project@);
        }
        assert(find_acc(gv.skip(i as int), project@) == (if find_acc(
            gv.skip(i as int + 1),
            project@,
        ) == -1 {
            -1
        } else {
            find_acc(gv.skip(i as int + 1), project@) + 1
        }));
        i = i + 1;
    }
    proof {
        assert(gv.skip(gv.len() as int).len() == 0);
    }
    None
}

/// Computes the level-one statistics for a given cutoff, in epoch
/// milliseconds: one row per (machine, project) seen within the
/// window, with summed counters and the latest activity timestamp,
/// sorted by prompt count descending.
#[verifier::loop_isolation(false)]
#[verifier::rlimit(60)]
pub fn stats_with_cutoff(files: &Vec<CorpusFile>, cutoff: i64) -> (r: Vec<ProjectStats>)
    ensures
        pss_view(r@) == spec_stats(cf_view_seq(files@), cutoff),
{
    let ghost fsv = cf_view_seq(files@);
    let mut groups: Vec<ProjectStats> = Vec::new();
    let mut i: usize = 0;
    proof {
        assert(fsv.skip(0) =~= fsv);
        assert(pss_view(groups@) =~= Seq::<ProjectStatsV>::empty());
    }
    while i < files.len()
        invariant
            i <= files@.len(),
            stats_fold(fsv, cutoff, Seq::empty()) == stats_fold(
                fsv.skip(i as int),
                cutoff,
                pss_view(groups@),
            ),
        decreases files@.len() - i,
    {
        proof {
            assert(fsv.skip(i as int)[0] == fsv[i as int]);
            assert(fsv.skip(i as int).subrange(1, fsv.skip(i as int).len() as int) =~= fsv.skip(
                i as int + 1,
            ));
        }
        let f = &files[i];
        assert(cf_view(*f) == fsv[i as int]);
        match deserialize_record(f.text.as_str()) {
            Some(rec) => {
                let keep: bool = match parse_rfc3339_millis(rec.timestamp.as_str()) {
                    Some(t) => t >= cutoff,
                    None => true,
                };
                assert(keep == passes_date(dv_view(rec).timestamp, Some(cutoff)));
                if keep {
                    let s = analyze_session(&rec);
                    let ghost stv = spec_analyze(dv_view(rec).conversation);
                    let ghost before = pss_view(groups@);
                    match find_group_exec(&groups, f.machine.as_str(), f.project.as_str()) {
                        Some(idx) => {
                            let old_row = groups.remove(idx);
                            let new_row = ProjectStats {
                                machine: old_row.machine,
                                project: old_row.project,
                                session_count: add_sat(old_row.session_count, 1),
                                prompt_count: add_sat(old_row.prompt_count, s.prompts),
                                tool_calls: add_sat(old_row.tool_calls, s.tool_calls),
                                files_touched: add_sat(old_row.files_touched, s.files_touched),
                                prompt_words: add_sat(old_row.prompt_words, s.prompt_words),
                                response_words: add_sat(old_row.response_words, s.response_words),
                                last_activity: if str_le(
                                    rec.timestamp.as_str(),
                                    old_row.last_activity.as_str(),
                                ) {
                                    old_row.last_activity
                                } else {
                                    rec.timestamp.clone()
                                },
                            };
                            groups.insert(idx, new_row);
                            proof {
                                before.remove_ensures(idx as int);
                                before.remove(idx as int).insert_ensures(
                                    idx as int,
                                    ps_view(new_row),
                                );
                                assert(pss_view(groups@) =~= before.remove(idx as int).insert(
                                    idx as int,
                                    ps_view(new_row),
                                ));
                                assert(pss_view(groups@) =~= before.update(
                                    idx as int,
                                    ps_view(new_row),
                                ));
                                assert(find_group(
                                    before,
                                    fsv[i as int].machine,
                                    fsv[i as int].project,
                                ) == idx as int);
                                assert(ps_view(new_row) =~= merge_row(
                                    before[idx as int],
                                    stv.prompts,
                                    stv.tool_calls,
                                    stv.files.len() as int,
                                    stv.prompt_words,
                                    stv.response_words,
                                    dv_view(rec).timestamp,
                                ));
                                assert(pss_view(groups@) =~= add_session(
                                    before,
                                    fsv[i as int].machine,
                                    fsv[i as int].project,
                                    stv,
                                    dv_view(rec).timestamp,
                                ));
                            }
                        },
                        None => {
                            let new_row = ProjectStats {
                                machine: f.machine.clone(),
                                project: f.project.clone(),
                                session_count: add_sat(0, 1),
                                prompt_count: add_sat(0, s.prompts),
                                tool_calls: add_sat(0, s.tool_calls),
                                files_touched: add_sat(0, s.files_touched),
                                prompt_words: add_sat(0, s.prompt_words),
                                response_words: add_sat(0, s.response_words),
                                last_activity: if str_le(rec.timestamp.as_str(), "") {
                                    String::new()
                                } else {
                                    rec.timestamp.clone()
                                },
                            };
                            groups.push(new_row);
                            proof {
                                reveal_strlit("");
                                assert(""@ =~= Seq::<char>::empty());
                                assert(pss_view(groups@) =~= before.push(ps_view(new_row)));
                                assert(ps_view(new_row) =~= merge_row(
                                    zero_row(fsv[i as int].machine, fsv[i as int].project),
                                    stv.prompts,
                                    stv.tool_calls,
                                    stv.files.len() as int,
                                    stv.prompt_words,
                                    stv.response_words,
                                    dv_view(rec).timestamp,
                                ));
                                assert(pss_view(groups@) =~= add_session(
                                    before,
                                    fsv[i as int].machine,
                                    fsv[i as int].project,
                                    stv,
                                    dv_view(rec).timestamp,
                                ));
                            }
                        },
                    }
                }
            },
            None => {},
        }
        i = i + 1;
    }
    proof {
        assert(fsv.skip(fsv.len() as int).len() == 0);
    }
    sort_stats_rows(groups)
}

/// A stable insertion at a found position equals the specified
/// insertion.
proof fn lemma_insert_row_at(s: Seq<ProjectStatsV>, x: ProjectStatsV, i: int)
    requires
        0 <= i <= s.len(),
        forall|j: int| 0 <= j < i ==> x.prompt_count <= (#[trigger] s[j]).prompt_count,
        i < s.len() ==> x.prompt_count > s[i].prompt_count,
    ensures
        insert_row(s, x) == s.insert(i, x),
    decreases s.len(),
{
    if s.len() == 0 {
        assert(insert_row(s, x) =~= s.insert(0, x));
    } else if i == 0 {
        assert(insert_row(s, x) =~= s.insert(0, x));
    } else {
        let st = s.subrange(1, s.len() as int);
        assert(forall|j: int|
            0 <= j < i - 1 ==> x.prompt_count <= (#[trigger] st[j]).prompt_count) by {
            assert(forall|j: int| 0 <= j < i - 1 ==> st[j] == s[j + 1]);
        }
        assert(i - 1 < st.len() ==> x.prompt_count > st[i - 1].prompt_count);
        lemma_insert_row_at(st, x, i - 1);
        assert(insert_row(s, x) =~= s.insert(i, x));
    }
}

/// Sorts stats rows by prompt count descending with stable insertion.
fn sort_stats_rows(v: Vec<ProjectStats>) -> (r: Vec<ProjectStats>)
    ensures
        pss_view(r@) == sort_rows(pss_view(v@)),
{
    let ghost orig = pss_view(v@);
    let total = v.len();
    let mut rest = v;
    let mut sorted: Vec<ProjectStats> = Vec::new();
    let mut k: usize = 0;
    proof {
        assert(orig.subrange(0, 0) =~= Seq::<ProjectStatsV>::empty());
        assert(pss_view(sorted@) =~= sort_rows(orig.subrange(0, 0)));
        assert(rest@ == v@);
    }
    while rest.len() > 0
        invariant
            total == orig.len(),
            k <= orig.len(),
            k + rest@.len() == orig.len(),
            forall|j: int| 0 <= j < rest@.len() ==> ps_view(#[trigger] rest@[j]) == orig[k + j],
            pss_view(sorted@) == sort_rows(orig.subrange(0, k as int)),
        decreases rest@.len(),
    {
        let x = rest.remove(0);
        proof {
            assert(ps_view(x) == orig[k as int]);
        }
        let ghost xv = ps_view(x);
        let ghost before = pss_view(sorted@);
        let mut pos: usize = 0;
        while pos < sorted.len() && x.prompt_count <= sorted[pos].prompt_count
            invariant
                pos <= sorted@.len(),
                before == pss_view(sorted@),
                before.len() == sorted@.len(),
                xv == ps_view(x),
                forall|j: int|
                    0 <= j < pos ==> xv.prompt_count <= (#[trigger] before[j]).prompt_count,
            decreases sorted@.len() - pos,
        {
            assert(before[pos as int] == ps_view(sorted@[pos as int]));
            pos = pos + 1;
        }
        proof {
            if pos < sorted@.len() {
                assert(before[pos as int] == ps_view(sorted@[pos as int]));
            }
            lemma_insert_row_at(before, xv, pos as int);
            before.insert_ensures(pos as int, xv);
        }
        sorted.insert(pos, x);
        proof {
            assert(pss_view(sorted@) =~= before.insert(pos as int, xv));
            assert(orig.subrange(0, k as int + 1).subrange(0, k as int) =~= orig.subrange(
                0,
                k as int,
            ));
            assert(orig.subrange(0, k as int + 1).last() == orig[k as int]);
            assert(pss_view(sorted@) == sort_rows(orig.subrange(0, k as int + 1)));
        }
        k = k + 1;
    }
    assert(orig.subrange(0, orig.len() as int) =~= orig);
    sorted
}

/// Joins a machine list into one label, ", " between names.
fn join_list(ms: &Vec<String>) -> (r: String)
    ensures
        r@ == crate::search::join_sep(strs_view(ms@), ", "@),
{
    let ghost parts = strs_view(ms@);
    let mut out = String::new();
    let mut i: usize = 0;
    while i < ms.len()
        invariant
            i <= ms@.len(),
            parts == strs_view(ms@),
            parts.len() == ms@.len(),
            out@ == crate::search::join_sep(parts.subrange(0, i as int), ", "@),
            i > 0 ==> parts.subrange(0, i as int).len() > 0,
        decreases ms@.len() - i,
    {
        proof {
            crate::search::lemma_join_sep_push(parts.subrange(0, i as int), parts[i as int], ", "@);
            assert(parts.subrange(0, i as int).push(parts[i as int]) =~= parts.subrange(
                0,
                i as int + 1,
            ));
        }
        if i > 0 {
            out.append(", ");
        }
        out.append(ms[i].as_str());
        assert(out@ =~= crate::search::join_sep(parts.subrange(0, i as int + 1), ", "@));
        i = i + 1;
    }
    assert(parts.subrange(0, parts.len() as int) =~= parts);
    out
}

/// Computes the level-two statistics for a given cutoff: the level
/// one rows re-grouped by project, counters summed across machines,
/// the latest activity kept, and each contributing machine named
/// exactly once in the ", "-joined machine label.
#[verifier::loop_isolation(false)]
#[verifier::rlimit(60)]
pub fn grouped_with_cutoff(files: &Vec<CorpusFile>, cutoff: i64) -> (r: Vec<ProjectStats>)
    ensures
        pss_view(r@) == spec_grouped(cf_view_seq(files@), cutoff),
{
    let by_machine = stats_with_cutoff(files, cutoff);
    let ghost rows = pss_view(by_machine@);
    let mut accs: Vec<GroupAcc> = Vec::new();
    let mut i: usize = 0;
    proof {
        assert(rows.skip(0) =~= rows);
        assert(gas_view(accs@) =~= Seq::<GroupAccV>::empty());
    }
    while i < by_machine.len()
        invariant
            i <= by_machine@.len(),
            rows == pss_view(by_machine@),
            rows.len() == by_machine@.len(),
            group_fold(rows, Seq::empty()) == group_fold(rows.skip(i as int), gas_view(accs@)),
        decreases by_machine@.len() - i,
    {
        proof {
            assert(rows.skip(i as int)[0] == rows[i as int]);
            assert(rows.skip(i as int).subrange(1, rows.skip(i as int).len() as int) =~= rows.skip(
                i as int + 1,
            ));
        }
        let x = &by_machine[i];
        assert(ps_view(*x) == rows[i as int]);
        let ghost before = gas_view(accs@);
        match find_acc_exec(&accs, x.project.as_str()) {
            Some(idx) => {
                let old_acc = accs.remove(idx);
                let ghost old_machines = strs_view(old_acc.machines@);
                let mut machines = old_acc.machines;
                if !files_contain(&machines, x.machine.as_str()) {
                    machines.push(x.machine.clone());
                    assert(strs_view(machines@) =~= old_machines.push(x.machine@));
                }
                let new_acc = GroupAcc {
                    project: old_acc.project,
                    machines,
                    session_count: add_sat(old_acc.session_count, x.session_count),
                    prompt_count: add_sat(old_acc.prompt_count, x.prompt_count),
                    tool_calls: add_sat(old_acc.tool_calls, x.tool_calls),
                    files_touched: add_sat(old_acc.files_touched, x.files_touched),
                    prompt_words: add_sat(old_acc.prompt_words, x.prompt_words),
                    response_words: add_sat(old_acc.response_words, x.response_words),
                    last_activity: if str_le(
                        x.last_activity.as_str(),
                        old_acc.last_activity.as_str(),
                    ) {
                        old_acc.last_activity
                    } else {
                        x.last_activity.clone()
                    },
                };
                accs.insert(idx, new_acc);
                proof {
                    before.remove_ensures(idx as int);
                    before.remove(idx as int).insert_ensures(idx as int, ga_view(new_acc));
                    assert(gas_view(accs@) =~= before.remove(idx as int).insert(
                        idx as int,
                        ga_view(new_acc),
                    ));
                    assert(gas_view(accs@) =~= before.update(idx as int, ga_view(new_acc)));
                    assert(find_acc(before, rows[i as int].project) == idx as int);
                    assert(ga_view(new_acc) =~= merge_acc(before[idx as int], rows[i as int]));
                    assert(gas_view(accs@) =~= before.update(
                        idx as int,
                        merge_acc(before[idx as int], rows[i as int]),
                    ));
                }
            },
            None => {
                let mut machines: Vec<String> = Vec::new();
                machines.push(x.machine.clone());
                let new_acc = GroupAcc {
                    project: x.project.clone(),
                    machines,
                    session_count: add_sat(0, x.session_count),
                    prompt_count: add_sat(0, x.prompt_count),
                    tool_calls: add_sat(0, x.tool_calls),
                    files_touched: add_sat(0, x.files_touched),
                    prompt_words: add_sat(0, x.prompt_words),
                    response_words: add_sat(0, x.response_words),
                    last_activity: if str_le(x.last_activity.as_str(), "") {
                        String::new()
                    } else {
                        x.last_activity.clone()
                    },
                };
                accs.push(new_acc);
                proof {
                    reveal_strlit("");
                    assert(""@ =~= Seq::<char>::empty());
                    assert(strs_view(new_acc.machines@) =~= Seq::<Seq<char>>::empty().push(
                        x.machine@,
                    ));
                    assert(gas_view(accs@) =~= before.push(ga_view(new_acc)));
                    assert(ga_view(new_acc) =~= merge_acc(
                        zero_acc(rows[i as int].project),
                        rows[i as int],
                    ));
                    assert(gas_view(accs@) =~= before.push(
                        merge_acc(zero_acc(rows[i as int].project), rows[i as int]),
                    ));
                }
            },
        }
        i = i + 1;
    }
    proof {
        assert(rows.skip(rows.len() as int).len() == 0);
    }
    let ghost final_accs = gas_view(accs@);
    let mut out: Vec<ProjectStats> = Vec::new();
    let mut k: usize = 0;
    while k < accs.len()
        invariant
            k <= accs@.len(),
            final_accs == gas_view(accs@),
            final_accs.len() == accs@.len(),
            out@.len() == k,
            forall|j: int| 0 <= j < k ==> ps_view(#[trigger] out@[j]) == acc_row(final_accs[j]),
        decreases accs@.len() - k,
    {
        let a = &accs[k];
        assert(ga_view(*a) == final_accs[k as int]);
        let machine = join_list(&a.machines);
        let row = ProjectStats {
            machine,
            project: a.project.clone(),
            session_count: a.session_count,
            prompt_count: a.prompt_count,
            tool_calls: a.tool_calls,
            files_touched: a.files_touched,
            prompt_words: a.prompt_words,
            response_words: a.response_words,
            last_activity: a.last_activity.clone(),
        };
        assert(ps_view(row) =~= acc_row(final_accs[k as int]));
        out.push(row);
        k = k + 1;
    }
    assert(pss_view(out@) =~= accs_rows(final_accs));
    sort_stats_rows(out)
}

/// Level-one statistics for a window of `days` days ending now:
/// whatever instant the clock read, the result is exactly the
/// aggregation for that instant's cutoff.
pub fn get_project_stats(files: &Vec<CorpusFile>, days: u32) -> (r: Vec<ProjectStats>)
    ensures
        exists|now: i64|
            pss_view(r@) == spec_stats(cf_view_seq(files@), spec_cutoff(days, now)),
{
    let cutoff = cutoff_for_days(days);
    let r = stats_with_cutoff(files, cutoff);
    proof {
        let now = choose|n: i64| cutoff == spec_cutoff(days, n);
        assert(pss_view(r@) == spec_stats(cf_view_seq(files@), spec_cutoff(days, now)));
    }
    r
}

/// Level-two statistics for a window of `days` days ending now:
/// whatever instant the clock read, the result is exactly the
/// aggregation for that instant's cutoff.
pub fn get_project_stats_grouped(files: &Vec<CorpusFile>, days: u32) -> (r: Vec<ProjectStats>)
    ensures
        exists|now: i64|
            pss_view(r@) == spec_grouped(cf_view_seq(files@), spec_cutoff(days, now)),
{
    let cutoff = cutoff_for_days(days);
    let r = grouped_with_cutoff(files, cutoff);
    proof {
        let now = choose|n: i64| cutoff == spec_cutoff(days, n);
        assert(pss_view(r@) == spec_grouped(cf_view_seq(files@), spec_cutoff(days, now)));
    }
    r
}

/// Rows ordered by prompt count, busiest first.
pub open spec fn sorted_by_prompts_desc(s: Seq<ProjectStatsV>) -> bool {
    forall|i: int, j: int|
        #![trigger s[i], s[j]]
        0 <= i < j < s.len() ==> s[j].prompt_count <= s[i].prompt_count
}

proof fn lemma_insert_row_members(s: Seq<ProjectStatsV>, x: ProjectStatsV)
    ensures
        insert_row(s, x).len() == s.len() + 1,
        forall|k: int|
            0 <= k < insert_row(s, x).len() ==> (#[trigger] insert_row(s, x)[k] == x || s.contains(
                insert_row(s, x)[k],
            )),
    decreases s.len(),
{
    let r = insert_row(s, x);
    if s.len() == 0 {
        assert(r[0] == x);
    } else if x.prompt_count > s[0].prompt_count {
        assert forall|k: int| 0 <= k < r.len() implies (#[trigger] r[k] == x || s.contains(
            r[k],
        )) by {
            if k > 0 {
                assert(r[k] == s[k - 1]);
            }
        }
    } else {
        let t = s.subrange(1, s.len() as int);
        lemma_insert_row_members(t, x);
        assert forall|k: int| 0 <= k < r.len() implies (#[trigger] r[k] == x || s.contains(
            r[k],
        )) by {
            if k == 0 {
                assert(r[0] == s[0]);
            } else {
                assert(r[k] == insert_row(t, x)[k - 1]);
                if insert_row(t, x)[k - 1] == x {
                } else {
                    let m = choose|m: int| 0 <= m < t.len() && t[m] == insert_row(t, x)[k - 1];
                    assert(s[m + 1] == r[k]);
                }
            }
        }
    }
}

proof fn lemma_insert_row_sorted(s: Seq<ProjectStatsV>, x: ProjectStatsV)
    requires
        sorted_by_prompts_desc(s),
    ensures
        sorted_by_prompts_desc(insert_row(s, x)),
    decreases s.len(),
{
    let r = insert_row(s, x);
    if s.len() == 0 {
    } else if x.prompt_count > s[0].prompt_count {
        assert forall|i: int, j: int|
            #![trigger r[i], r[j]]
            0 <= i < j < r.len() implies r[j].prompt_count <= r[i].prompt_count by {
            assert(r[j] == s[j - 1]);
            if i > 0 {
                assert(r[i] == s[i - 1]);
            }
        }
    } else {
        let t = s.subrange(1, s.len() as int);
        assert(sorted_by_prompts_desc(t)) by {
            assert(forall|i: int, j: int|
                #![trigger t[i], t[j]]
                0 <= i < j < t.len() ==> t[i] == s[i + 1] && t[j] == s[j + 1]);
        }
        lemma_insert_row_sorted(t, x);
        lemma_insert_row_members(t, x);
        let ti = insert_row(t, x);
        assert forall|i: int, j: int|
            #![trigger r[i], r[j]]
            0 <= i < j < r.len() implies r[j].prompt_count <= r[i].prompt_count by {
            if i == 0 {
                assert(r[0] == s[0]);
                assert(r[j] == ti[j - 1]);
                if ti[j - 1] == x {
                } else {
                    let m = choose|m: int| 0 <= m < t.len() && t[m] == ti[j - 1];
                    assert(s[m + 1] == ti[j - 1]);
                }
            } else {
                assert(r[i] == ti[i - 1] && r[j] == ti[j - 1]);
            }
        }
    }
}

proof fn lemma_sort_rows_sorted(s: Seq<ProjectStatsV>)
    ensures
        sorted_by_prompts_desc(sort_rows(s)),
    decreases s.len(),
{
    if s.len() > 0 {
        lemma_sort_rows_sorted(s.subrange(0, s.len() - 1));
        lemma_insert_row_sorted(sort_rows(s.subrange(0, s.len() - 1)), s[s.len() - 1]);
    }
}

/// Law: both statistics views come ordered by prompt count, busiest
/// project first.
pub proof fn lemma_stats_sorted(files: Seq<CorpusFileV>, cutoff: i64)
    ensures
        sorted_by_prompts_desc(spec_stats(files, cutoff)),
        sorted_by_prompts_desc(spec_grouped(files, cutoff)),
{
    lemma_sort_rows_sorted(stats_fold(files, cutoff, Seq::empty()));
    lemma_sort_rows_sorted(accs_rows(group_fold(spec_stats(files, cutoff), Seq::empty())));
}

/// Listing a machine preserves distinctness, keeps every listed
/// machine, and lists the new one.
proof fn lemma_add_machine(machines: Seq<Seq<char>>, m: Seq<char>)
    requires
        machines.no_duplicates(),
    ensures
        add_machine(machines, m).no_duplicates(),
        add_machine(machines, m).contains(m),
        forall|x: Seq<char>|
            machines.contains(x) ==> #[trigger] add_machine(machines, m).contains(x),
{
    if !machines.contains(m) {
        let r = machines.push(m);
        assert forall|i: int, j: int|
            0 <= i < r.len() && 0 <= j < r.len() && i != j implies r[i] != r[j] by {
            if i < machines.len() && j < machines.len() {
            } else if i < machines.len() {
                assert(r[j] == m);
                assert(machines[i] == r[i]);
            } else {
                assert(r[i] == m);
                assert(machines[j] == r[j]);
            }
        }
        assert(r[machines.len() as int] == m);
        assert forall|x: Seq<char>| machines.contains(x) implies #[trigger] r.contains(x) by {
            let w = choose|w: int| 0 <= w < machines.len() && machines[w] == x;
            assert(r[w] == x);
        }
    }
}

/// Folding more rows never unlists a machine and never renames a
/// group.
proof fn lemma_group_fold_preserves(rows: Seq<ProjectStatsV>, accs: Seq<GroupAccV>)
    ensures
        group_fold(rows, accs).len() >= accs.len(),
        forall|i: int|
            0 <= i < accs.len() ==> (#[trigger] group_fold(rows, accs)[i]).project
                == accs[i].project,
        forall|i: int, m: Seq<char>|
            0 <= i < accs.len() && (#[trigger] accs[i].machines.contains(m)) ==> group_fold(
                rows,
                accs,
            )[i].machines.contains(m),
    decreases rows.len(),
{
    if rows.len() > 0 {
        let i = find_acc(accs, rows[0].project);
        lemma_find_acc_range(accs, rows[0].project);
        let g2 = if i == -1 {
            accs.push(merge_acc(zero_acc(rows[0].project), rows[0]))
        } else {
            accs.update(i, merge_acc(accs[i], rows[0]))
        };
        assert(g2.len() >= accs.len());
        assert forall|k: int, m: Seq<char>|
            0 <= k < accs.len() && (#[trigger] accs[k].machines.contains(m)) implies g2[
            k
        ].machines.contains(m) by {
            if i != -1 && k == i {
                let w = choose|w: int| 0 <= w < accs[k].machines.len() && accs[k].machines[w] == m;
                if !accs[k].machines.contains(rows[0].machine) {
                    assert(add_machine(accs[k].machines, rows[0].machine)[w] == m);
                }
            }
        }
        lemma_group_fold_preserves(rows.subrange(1, rows.len() as int), g2);
    }
}

/// Law: in the level-two grouping, no machine is listed twice.
pub proof fn lemma_machines_listed_once(rows: Seq<ProjectStatsV>, accs: Seq<GroupAccV>)
    requires
        forall|i: int| 0 <= i < accs.len() ==> (#[trigger] accs[i]).machines.no_duplicates(),
    ensures
        forall|i: int|
            0 <= i < group_fold(rows, accs).len() ==> (#[trigger] group_fold(rows, accs)[
                i
            ]).machines.no_duplicates(),
    decreases rows.len(),
{
    if rows.len() > 0 {
        let i = find_acc(accs, rows[0].project);
        lemma_find_acc_range(accs, rows[0].project);
        let g2 = if i == -1 {
            accs.push(merge_acc(zero_acc(rows[0].project), rows[0]))
        } else {
            accs.update(i, merge_acc(accs[i], rows[0]))
        };
        assert forall|k: int| 0 <= k < g2.len() implies (#[trigger] g2[
            k
        ]).machines.no_duplicates() by {
            if i == -1 && k == g2.len() - 1 {
                lemma_add_machine(Seq::empty(), rows[0].machine);
            } else if i != -1 && k == i {
                lemma_add_machine(accs[i].machines, rows[0].machine);
            }
        }
        let rest = rows.subrange(1, rows.len() as int);
        lemma_machines_listed_once(rest, g2);
        assert forall|k: int|
            0 <= k < group_fold(rows, accs).len() implies (#[trigger] group_fold(rows, accs)[
            k
        ]).machines.no_duplicates() by {
            assert(group_fold(rows, accs) == group_fold(rest, g2));
            assert(group_fold(rest, g2)[k].machines.no_duplicates());
        }
    }
}

/// Law: every level-one row's machine ends up listed in its
/// project's merged machine list; the group's machine label is that
/// list joined by ", ", so each contributing machine is named.
pub proof fn lemma_each_machine_listed(rows: Seq<ProjectStatsV>, accs: Seq<GroupAccV>)
    ensures
        forall|k: int|
            #![trigger rows[k]]
            0 <= k < rows.len() ==> exists|i: int|
                0 <= i < group_fold(rows, accs).len() && (#[trigger] group_fold(rows, accs)[
                    i
                ]).project == rows[k].project && group_fold(rows, accs)[i].machines.contains(
                    rows[k].machine,
                ),
    decreases rows.len(),
{
    if rows.len() > 0 {
        let row = rows[0];
        let i = find_acc(accs, row.project);
        lemma_find_acc_range(accs, row.project);
        let g2 = if i == -1 {
            accs.push(merge_acc(zero_acc(row.project), row))
        } else {
            accs.update(i, merge_acc(accs[i], row))
        };
        let idx: int = if i == -1 {
            g2.len() - 1
        } else {
            i
        };
        assert(g2[idx].project == row.project);
        assert(g2[idx].machines.contains(row.machine)) by {
            if i == -1 {
                assert(add_machine(Seq::empty(), row.machine)[0] == row.machine);
            } else {
                if accs[i].machines.contains(row.machine) {
                    assert(add_machine(accs[i].machines, row.machine).contains(row.machine));
                } else {
                    assert(add_machine(accs[i].machines, row.machine)[accs[
                        i
                    ].machines.len() as int] == row.machine);
                }
            }
        }
        let rest = rows.subrange(1, rows.len() as int);
        lemma_group_fold_preserves(rest, g2);
        assert(group_fold(rows, accs) == group_fold(rest, g2));
        assert(group_fold(rest, g2)[idx].project == row.project);
        assert(group_fold(rest, g2)[idx].machines.contains(row.machine));
        lemma_each_machine_listed(rest, g2);
        assert forall|k: int|
            #![trigger rows[k]]
            0 <= k < rows.len() implies exists|i2: int|
                0 <= i2 < group_fold(rows, accs).len() && (#[trigger] group_fold(rows, accs)[
                    i2
                ]).project == rows[k].project && group_fold(rows, accs)[i2].machines.contains(
                    rows[k].machine,
                ) by {
            if k == 0 {
                assert(0 <= idx < group_fold(rows, accs).len() && group_fold(rows, accs)[
                    idx
                ].project == rows[0].project && group_fold(rows, accs)[idx].machines.contains(
                    rows[0].machine,
                ));
            } else {
                assert(rest[k - 1] == rows[k]);
            }
        }
    }
}

} // verus!
