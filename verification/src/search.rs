//! The corpus search engine: scope and recency filtering over stored
//! session records, case-insensitive substring matching, context
//! snippets, and a newest-first ordering of the results.

use vstd::prelude::*;
use crate::clock::{cutoff_for_days, parse_rfc3339_millis, rfc3339_millis, spec_cutoff, spec_cutoff_opt};
use crate::model::{ConversationEntry, ConversationEntryV, ce_view};
use crate::output::{deserialize_record, record_of_text};
use crate::text::{
    chars_of, contains_seq, contains_sub, find_sub, is_space, is_space_char, lex_le,
    lemma_lex_le_total, lemma_lex_le_trans, lower_seq, lower_vec, match_at, str_eq, str_le,
    string_of,
};
use vstd::string::{StrSliceExecFns, StringExecFns};
use vstd::seq_lib::*;

verus! {

/// A single search result with context.
#[derive(Debug, PartialEq)]
pub struct SearchResult {
    pub machine: String,
    pub project: String,
    pub session_id: String,
    pub session_file: String,
    pub timestamp: String,
    pub entry_type: String,
    pub snippet: String,
    pub query: String,
}

/// The image of a search result.
#[verifier::ext_equal]
pub struct SearchResultV {
    pub machine: Seq<char>,
    pub project: Seq<char>,
    pub session_id: Seq<char>,
    pub session_file: Seq<char>,
    pub timestamp: Seq<char>,
    pub entry_type: Seq<char>,
    pub snippet: Seq<char>,
    pub query: Seq<char>,
}

/// Image of a search result.
pub open spec fn sr_view(r: SearchResult) -> SearchResultV {
    SearchResultV {
        machine: r.machine@,
        project: r.project@,
        session_id: r.session_id@,
        session_file: r.session_file@,
        timestamp: r.timestamp@,
        entry_type: r.entry_type@,
        snippet: r.snippet@,
        query: r.query@,
    }
}

/// Image of a result list.
pub open spec fn srs_view(rs: Seq<SearchResult>) -> Seq<SearchResultV> {
    Seq::new(rs.len(), |i: int| sr_view(rs[i]))
}

/// What to search through.
#[derive(Clone, Copy, Default, Debug, PartialEq)]
pub enum SearchScope {
    PromptsOnly,
    #[default]
    Conversations,
    Everything,
}

/// The scope named by a tag: "prompts", "all", or anything else for
/// the default.
pub open spec fn spec_scope_of(s: Seq<char>) -> SearchScope {
    if s == "prompts"@ {
        SearchScope::PromptsOnly
    } else if s == "all"@ {
        SearchScope::Everything
    } else {
        SearchScope::Conversations
    }
}

impl SearchScope {
    /// Reads a scope from its tag.
    pub fn from_str(s: &str) -> (r: Self)
        ensures
            r == spec_scope_of(s@),
    {
        if str_eq(s, "prompts") {
            Self::PromptsOnly
        } else if str_eq(s, "all") {
            Self::Everything
        } else {
            Self::Conversations
        }
    }
}

/// One file of the stored corpus, as handed in by the caller that
/// walked the `machine/project/file` directory tree.
#[derive(Debug, PartialEq)]
pub struct CorpusFile {
    pub machine: String,
    pub project: String,
    pub file_name: String,
    pub text: String,
}

/// The image of a corpus file.
#[verifier::ext_equal]
pub struct CorpusFileV {
    pub machine: Seq<char>,
    pub project: Seq<char>,
    pub file_name: Seq<char>,
    pub text: Seq<char>,
}

/// Image of a corpus file.
pub open spec fn cf_view(f: CorpusFile) -> CorpusFileV {
    CorpusFileV { machine: f.machine@, project: f.project@, file_name: f.file_name@, text: f.text@ }
}

/// Image of a corpus.
pub open spec fn cf_view_seq(fs: Seq<CorpusFile>) -> Seq<CorpusFileV> {
    Seq::new(fs.len(), |i: int| cf_view(fs[i]))
}

/// Parts joined by a separator.
pub open spec fn join_sep(parts: Seq<Seq<char>>, sep: Seq<char>) -> Seq<char>
    decreases parts.len(),
{
    if parts.len() == 0 {
        Seq::empty()
    } else if parts.len() == 1 {
        parts[0]
    } else {
        parts[0] + sep + join_sep(parts.subrange(1, parts.len() as int), sep)
    }
}

/// The text a conversation entry is matched against: its content, or
/// for a tool batch its actions joined by " | ".
pub open spec fn entry_text(c: ConversationEntryV) -> Seq<char> {
    match c {
        ConversationEntryV::User { content, .. } => content,
        ConversationEntryV::Assistant { content, .. } => content,
        ConversationEntryV::ToolSummary { actions } => join_sep(actions, " | "@),
    }
}

/// The result tag of an entry: "user", "assistant" or "tool".
pub open spec fn entry_kind_tag(c: ConversationEntryV) -> Seq<char> {
    match c {
        ConversationEntryV::User { .. } => "user"@,
        ConversationEntryV::Assistant { .. } => "assistant"@,
        ConversationEntryV::ToolSummary { .. } => "tool"@,
    }
}

/// Whether a scope admits an entry: user turns always, assistant
/// turns unless only prompts are searched, tool batches only when
/// everything is.
pub open spec fn scope_admits(scope: SearchScope, c: ConversationEntryV) -> bool {
    match c {
        ConversationEntryV::User { .. } => true,
        ConversationEntryV::Assistant { .. } => !(scope is PromptsOnly),
        ConversationEntryV::ToolSummary { .. } => scope is Everything,
    }
}

/// The first position at which `q` occurs in `s`.
pub open spec fn first_match_pos(s: Seq<char>, q: Seq<char>) -> int {
    choose|i: int| match_at(s, q, i) && forall|j: int| 0 <= j < i ==> !match_at(s, q, j)
}

/// A position that is a first match is the first match position.
pub proof fn lemma_first_match_unique(s: Seq<char>, q: Seq<char>, i: int)
    requires
        match_at(s, q, i),
        forall|j: int| 0 <= j < i ==> !match_at(s, q, j),
    ensures
        first_match_pos(s, q) == i,
{
    let c = first_match_pos(s, q);
    assert(match_at(s, q, c) && forall|j: int| 0 <= j < c ==> !match_at(s, q, j)) by {
        assert(match_at(s, q, i) && forall|j: int| 0 <= j < i ==> !match_at(s, q, j));
    }
}

/// The smallest index at or after `from` holding a space character.
pub open spec fn find_space_from(s: Seq<char>, from: int) -> Option<int>
    decreases s.len() - from,
{
    if from < 0 || from >= s.len() {
        None
    } else if s[from] == ' ' {
        Some(from)
    } else {
        find_space_from(s, from + 1)
    }
}

/// The largest index below `end` holding a space character.
pub open spec fn rfind_space_before(s: Seq<char>, end: int) -> Option<int>
    decreases end,
{
    if end <= 0 || end > s.len() {
        None
    } else if s[end - 1] == ' ' {
        Some(end - 1)
    } else {
        rfind_space_before(s, end - 1)
    }
}

/// `s` without its leading whitespace.
pub open spec fn trim_front(s: Seq<char>) -> Seq<char>
    decreases s.len(),
{
    if s.len() > 0 && is_space_char(s[0]) {
        trim_front(s.subrange(1, s.len() as int))
    } else {
        s
    }
}

/// `s` without its trailing whitespace.
pub open spec fn trim_back(s: Seq<char>) -> Seq<char>
    decreases s.len(),
{
    if s.len() > 0 && is_space_char(s[s.len() - 1]) {
        trim_back(s.subrange(0, s.len() - 1))
    } else {
        s
    }
}

/// `s` without leading and trailing whitespace.
pub open spec fn trim_seq(s: Seq<char>) -> Seq<char> {
    trim_back(trim_front(s))
}

/// At most the first `n` elements of a sequence.
pub open spec fn take_at_most<A>(s: Seq<A>, n: int) -> Seq<A> {
    if n < 0 {
        Seq::empty()
    } else if s.len() <= n {
        s
    } else {
        s.subrange(0, n)
    }
}

/// The snippet shown for a match of `query_lower` in `content`: with
/// no match, the first 200 characters; otherwise a window of 80
/// characters around the first match, snapped to spaces, trimmed, and
/// marked with ellipses where text was cut.
pub open spec fn spec_snippet(content: Seq<char>, query_lower: Seq<char>) -> Seq<char> {
    let cl = lower_seq(content);
    if !contains_seq(cl, query_lower) {
        take_at_most(content, 200)
    } else {
        let p = first_match_pos(cl, query_lower);
        let start = if p > 80 {
            match find_space_from(content, p - 80) {
                Some(sp) => sp + 1,
                None => p - 80,
            }
        } else {
            0
        };
        let ec = p + query_lower.len() + 80;
        let end = if ec < content.len() {
            match rfind_space_before(content, ec) {
                Some(sp) => sp,
                None => ec,
            }
        } else {
            content.len() as int
        };
        let core = if start <= end {
            content.subrange(start, end)
        } else {
            Seq::<char>::empty()
        };
        let trimmed = trim_seq(core);
        (if start > 0 {
            "..."@
        } else {
            Seq::<char>::empty()
        }) + trimmed + (if end < content.len() {
            "..."@
        } else {
            Seq::<char>::empty()
        })
    }
}

/// Builds the snippet for a match of `query_lower` in `content`.
pub fn create_snippet(content: &str, query_lower: &str) -> (r: String)
    ensures
        r@ == spec_snippet(content@, query_lower@),
{
    let cv = chars_of(content);
    let qv = chars_of(query_lower);
    let cl = lower_vec(&cv);
    let n = cv.len();
    match find_sub(&cl, &qv) {
        None => {
            let k = if n <= 200 {
                n
            } else {
                200
            };
            let mut w: Vec<char> = Vec::new();
            let mut i: usize = 0;
            while i < k
                invariant
                    i <= k,
                    k <= cv@.len(),
                    cv@ == content@,
                    w@ == content@.subrange(0, i as int),
                decreases k - i,
            {
                w.push(cv[i]);
                assert(w@ =~= content@.subrange(0, i + 1));
                i = i + 1;
            }
            assert(w@ =~= take_at_most(content@, 200));
            string_of(&w)
        },
        Some(p) => {
            proof {
                lemma_first_match_unique(lower_seq(content@), query_lower@, p as int);
            }
            let qlen = qv.len();
            assert(p + qlen <= n) by {
                assert(match_at(lower_seq(content@), query_lower@, p as int));
                assert(lower_seq(content@).len() == content@.len());
            }
            let start: usize = if p > 80 {
                let from = p - 80;
                let mut i: usize = from;
                loop
                    invariant
                        from <= i <= n,
                        n == cv@.len(),
                        cv@ == content@,
                        find_space_from(content@, from as int) == find_space_from(
                            content@,
                            i as int,
                        ),
                    ensures
                        from <= i <= n,
                        find_space_from(content@, from as int) == find_space_from(
                            content@,
                            i as int,
                        ),
                        i < n ==> content@[i as int] == ' ',
                    decreases n - i,
                {
                    if i >= n {
                        break ;
                    }
                    if cv[i] == ' ' {
                        break ;
                    }
                    i = i + 1;
                }
                if i < n {
                    assert(find_space_from(content@, from as int) == Some(i as int));
                    i + 1
                } else {
                    assert(find_space_from(content@, from as int) is None);
                    from
                }
            } else {
                0
            };
            let end: usize = if n > 80 && p + qlen < n - 80 {
                let ec_big = p + qlen + 80;
                let mut e: usize = ec_big;
                loop
                    invariant
                        0 <= e <= ec_big,
                        ec_big <= n,
                        n == cv@.len(),
                        cv@ == content@,
                        rfind_space_before(content@, ec_big as int) == rfind_space_before(
                            content@,
                            e as int,
                        ),
                    ensures
                        0 <= e <= ec_big,
                        rfind_space_before(content@, ec_big as int) == rfind_space_before(
                            content@,
                            e as int,
                        ),
                        e > 0 ==> content@[e - 1] == ' ',
                    decreases e,
                {
                    if e == 0 {
                        break ;
                    }
                    if cv[e - 1] == ' ' {
                        break ;
                    }
                    e = e - 1;
                }
                if e > 0 {
                    assert(rfind_space_before(content@, ec_big as int) == Some(e - 1));
                    e - 1
                } else {
                    assert(rfind_space_before(content@, ec_big as int) is None);
                    ec_big
                }
            } else {
                n
            };
            let ghost startg = start as int;
            let ghost endg = end as int;
            let ghost core = if startg <= endg {
                content@.subrange(startg, endg)
            } else {
                Seq::<char>::empty()
            };
            // bounds of the trimmed window inside the content
            let mut a: usize = start;
            let mut b: usize = end;
            if start <= end {
                while a < b && is_space(cv[a])
                    invariant
                        start <= a <= b,
                        b == end,
                        end <= n,
                        n == cv@.len(),
                        cv@ == content@,
                        core == content@.subrange(start as int, end as int),
                        trim_front(core) == trim_front(content@.subrange(a as int, b as int)),
                    decreases b - a,
                {
                    assert(content@.subrange(a as int, b as int).subrange(
                        1,
                        content@.subrange(a as int, b as int).len() as int,
                    ) =~= content@.subrange(a + 1, b as int));
                    a = a + 1;
                }
                assert(trim_front(core) == content@.subrange(a as int, b as int)) by {
                    if a < b {
                        assert(content@.subrange(a as int, b as int)[0] == content@[a as int]);
                    }
                }
                while b > a && is_space(cv[b - 1])
                    invariant
                        a <= b,
                        b <= end,
                        end <= n,
                        n == cv@.len(),
                        cv@ == content@,
                        trim_seq(core) == trim_back(content@.subrange(a as int, b as int)),
                    decreases b,
                {
                    assert(content@.subrange(a as int, b as int).subrange(
                        0,
                        content@.subrange(a as int, b as int).len() - 1,
                    ) =~= content@.subrange(a as int, b - 1));
                    b = b - 1;
                }
                assert(trim_seq(core) == content@.subrange(a as int, b as int)) by {
                    if b > a {
                        assert(content@.subrange(a as int, b as int)[b - 1 - a] == content@[b
                            - 1]);
                    }
                }
            } else {
                a = 0;
                b = 0;
                assert(core =~= Seq::<char>::empty());
                assert(trim_seq(core) =~= content@.subrange(0, 0));
            }
            let mut w: Vec<char> = Vec::new();
            let mut i: usize = a;
            while i < b
                invariant
                    a <= i <= b,
                    b <= n,
                    n == cv@.len(),
                    cv@ == content@,
                    w@ == content@.subrange(a as int, i as int),
                decreases b - i,
            {
                w.push(cv[i]);
                assert(w@ =~= content@.subrange(a as int, i + 1));
                i = i + 1;
            }
            assert(w@ == trim_seq(core)) by {
                assert(w@ =~= content@.subrange(a as int, b as int));
            }
            let mid = string_of(&w);
            let mut out = String::new();
            if start > 0 {
                out.append("...");
            }
            out.append(mid.as_str());
            if end < n {
                out.append("...");
            }
            proof {
                if start > 0 {
                } else {
                    assert(Seq::<char>::empty() + trim_seq(core) =~= trim_seq(core));
                }
                assert(out@ =~= spec_snippet(content@, query_lower@));
            }
            out
        },
    }
}

/// What one entry contributes to a search: a result exactly when the
/// scope admits the entry and the lowered text contains the lowered
/// query.
pub open spec fn spec_search_entry(
    c: ConversationEntryV,
    query_lower: Seq<char>,
    query_original: Seq<char>,
    scope: SearchScope,
    machine: Seq<char>,
    project: Seq<char>,
    session_id: Seq<char>,
    session_file: Seq<char>,
    timestamp: Seq<char>,
) -> Option<SearchResultV> {
    if scope_admits(scope, c) && contains_seq(lower_seq(entry_text(c)), query_lower) {
        Some(
            SearchResultV {
                machine,
                project,
                session_id,
                session_file,
                timestamp,
                entry_type: entry_kind_tag(c),
                snippet: spec_snippet(entry_text(c), query_lower),
                query: query_original,
            },
        )
    } else {
        None
    }
}

/// Joins a tool batch's actions with " | " for matching.
fn join_actions(actions: &Vec<String>) -> (r: String)
    ensures
        r@ == join_sep(crate::model::strs_view(actions@), " | "@),
{
    let ghost parts = crate::model::strs_view(actions@);
    let mut out = String::new();
    let mut i: usize = 0;
    while i < actions.len()
        invariant
            i <= actions@.len(),
            parts == crate::model::strs_view(actions@),
            parts.len() == actions@.len(),
            out@ == join_sep(parts.subrange(0, i as int), " | "@),
            i > 0 ==> parts.subrange(0, i as int).len() > 0,
        decreases actions@.len() - i,
    {
        proof {
            lemma_join_sep_push(parts.subrange(0, i as int), parts[i as int], " | "@);
            assert(parts.subrange(0, i as int).push(parts[i as int]) =~= parts.subrange(
                0,
                i as int + 1,
            ));
        }
        if i > 0 {
            out.append(" | ");
        }
        out.append(actions[i].as_str());
        assert(out@ =~= join_sep(parts.subrange(0, i as int + 1), " | "@));
        i = i + 1;
    }
    assert(parts.subrange(0, parts.len() as int) =~= parts);
    out
}

/// Appending a part extends the joined text at the back.
pub proof fn lemma_join_sep_push(parts: Seq<Seq<char>>, p: Seq<char>, sep: Seq<char>)
    ensures
        join_sep(parts.push(p), sep) == if parts.len() == 0 {
            p
        } else {
            join_sep(parts, sep) + sep + p
        },
    decreases parts.len(),
{
    if parts.len() == 0 {
        assert(parts.push(p)[0] == p);
    } else {
        assert(parts.push(p)[0] == parts[0]);
        assert(parts.push(p).subrange(1, parts.len() as int + 1) =~= parts.subrange(
            1,
            parts.len() as int,
        ).push(p));
        lemma_join_sep_push(parts.subrange(1, parts.len() as int), p, sep);
        if parts.len() == 1 {
            assert(parts.subrange(1, 1) =~= Seq::<Seq<char>>::empty());
            assert(join_sep(parts.push(p), sep) =~= join_sep(parts, sep) + sep + p);
        } else {
            assert(join_sep(parts.push(p), sep) =~= join_sep(parts, sep) + sep + p);
        }
    }
}

/// Matches one conversation entry against the query.
pub fn search_entry(
    entry: &ConversationEntry,
    query_lower: &str,
    query_original: &str,
    scope: SearchScope,
    machine: &str,
    project: &str,
    session_id: &str,
    session_file: &str,
    timestamp: &str,
) -> (r: Option<SearchResult>)
    ensures
        match r {
            Some(res) => spec_search_entry(
                ce_view(*entry),
                query_lower@,
                query_original@,
                scope,
                machine@,
                project@,
                session_id@,
                session_file@,
                timestamp@,
            ) == Some(sr_view(res)),
            None => spec_search_entry(
                ce_view(*entry),
                query_lower@,
                query_original@,
                scope,
                machine@,
                project@,
                session_id@,
                session_file@,
                timestamp@,
            ) is None,
        },
{
    let admitted: bool = match entry {
        ConversationEntry::User { .. } => true,
        ConversationEntry::Assistant { .. } => !matches!(scope, SearchScope::PromptsOnly),
        ConversationEntry::ToolSummary { .. } => matches!(scope, SearchScope::Everything),
    };
    if !admitted {
        return None;
    }
    let text: String = match entry {
        ConversationEntry::User { content, .. } => content.clone(),
        ConversationEntry::Assistant { content, .. } => content.clone(),
        ConversationEntry::ToolSummary { actions } => join_actions(actions),
    };
    let tv = chars_of(text.as_str());
    let lowered = lower_vec(&tv);
    let qv = chars_of(query_lower);
    if contains_sub(&lowered, &qv) {
        let kind_tag: &str = match entry {
            ConversationEntry::User { .. } => "user",
            ConversationEntry::Assistant { .. } => "assistant",
            ConversationEntry::ToolSummary { .. } => "tool",
        };
        Some(
            SearchResult {
                machine: machine.to_owned(),
                project: project.to_owned(),
                session_id: session_id.to_owned(),
                session_file: session_file.to_owned(),
                timestamp: timestamp.to_owned(),
                entry_type: kind_tag.to_owned(),
                snippet: create_snippet(text.as_str(), query_lower),
                query: query_original.to_owned(),
            },
        )
    } else {
        None
    }
}

/// A record within the recency window: kept when no window is given,
/// when its timestamp parses to a time at or after the cutoff, and
/// also when its timestamp does not parse at all.
pub open spec fn passes_date(ts: Seq<char>, cutoff: Option<i64>) -> bool {
    match cutoff {
        None => true,
        Some(c) => match rfc3339_millis(ts) {
            Some(t) => t >= c,
            None => true,
        },
    }
}

/// The results one record's conversation contributes, in entry order.
pub open spec fn record_results(
    conv: Seq<ConversationEntryV>,
    query_lower: Seq<char>,
    query_original: Seq<char>,
    scope: SearchScope,
    machine: Seq<char>,
    project: Seq<char>,
    session_id: Seq<char>,
    session_file: Seq<char>,
    timestamp: Seq<char>,
) -> Seq<SearchResultV>
    decreases conv.len(),
{
    if conv.len() == 0 {
        Seq::empty()
    } else {
        (match spec_search_entry(
            conv[0],
            query_lower,
            query_original,
            scope,
            machine,
            project,
            session_id,
            session_file,
            timestamp,
        ) {
            Some(r) => seq![r],
            None => Seq::empty(),
        }) + record_results(
            conv.subrange(1, conv.len() as int),
            query_lower,
            query_original,
            scope,
            machine,
            project,
            session_id,
            session_file,
            timestamp,
        )
    }
}

/// The results one corpus file contributes: nothing when its text is
/// not a record or the record is outside the window.
pub open spec fn file_results(
    f: CorpusFileV,
    query_lower: Seq<char>,
    query_original: Seq<char>,
    scope: SearchScope,
    cutoff: Option<i64>,
) -> Seq<SearchResultV> {
    match record_of_text(f.text) {
        Some(rec) => if passes_date(rec.timestamp, cutoff) {
            record_results(
                rec.conversation,
                query_lower,
                query_original,
                scope,
                f.machine,
                f.project,
                rec.session_id,
                f.file_name,
                rec.timestamp,
            )
        } else {
            Seq::empty()
        },
        None => Seq::empty(),
    }
}

/// All results of a corpus scan, in scan order.
pub open spec fn corpus_results(
    files: Seq<CorpusFileV>,
    query_lower: Seq<char>,
    query_original: Seq<char>,
    scope: SearchScope,
    cutoff: Option<i64>,
) -> Seq<SearchResultV>
    decreases files.len(),
{
    if files.len() == 0 {
        Seq::empty()
    } else {
        file_results(files[0], query_lower, query_original, scope, cutoff) + corpus_results(
            files.subrange(1, files.len() as int),
            query_lower,
            query_original,
            scope,
            cutoff,
        )
    }
}

/// Inserts a result into a list sorted by timestamp descending,
/// after any result with the same timestamp: a stable insertion.
pub open spec fn insert_desc(sorted: Seq<SearchResultV>, x: SearchResultV) -> Seq<SearchResultV>
    decreases sorted.len(),
{
    if sorted.len() == 0 {
        seq![x]
    } else if !lex_le(x.timestamp, sorted[0].timestamp) {
        seq![x] + sorted
    } else {
        seq![sorted[0]] + insert_desc(sorted.subrange(1, sorted.len() as int), x)
    }
}

/// Sorts results by timestamp descending, stably, by insertion in
/// order.
pub open spec fn sort_desc(s: Seq<SearchResultV>) -> Seq<SearchResultV>
    decreases s.len(),
{
    if s.len() == 0 {
        Seq::empty()
    } else {
        insert_desc(sort_desc(s.subrange(0, s.len() - 1)), s[s.len() - 1])
    }
}

/// Everything a search returns: the first `limit` matches in scan
/// order, sorted newest first.
pub open spec fn spec_search(
    files: Seq<CorpusFileV>,
    query: Seq<char>,
    scope: SearchScope,
    cutoff: Option<i64>,
    limit: int,
) -> Seq<SearchResultV> {
    sort_desc(
        take_at_most(corpus_results(files, lower_seq(query), query, scope, cutoff), limit),
    )
}


/// A clone of one search result; the image is unchanged.
fn clone_result(r: &SearchResult) -> (c: SearchResult)
    ensures
        sr_view(c) == sr_view(*r),
{
    SearchResult {
        machine: r.machine.clone(),
        project: r.project.clone(),
        session_id: r.session_id.clone(),
        session_file: r.session_file.clone(),
        timestamp: r.timestamp.clone(),
        entry_type: r.entry_type.clone(),
        snippet: r.snippet.clone(),
        query: r.query.clone(),
    }
}

/// `take_at_most` of a concatenation whose first part has the wanted
/// length is that first part.
proof fn lemma_take_prefix(s: Seq<SearchResultV>, a: Seq<SearchResultV>, b: Seq<SearchResultV>, n: int)
    requires
        s == a + b,
        a.len() == n,
    ensures
        take_at_most(s, n) == a,
{
    if s.len() <= n {
        assert(b.len() == 0);
        assert(s =~= a);
    } else {
        assert(s.subrange(0, n) =~= a);
    }
}

/// Collects the first `limit` matches of a corpus scan, in scan
/// order.
#[verifier::loop_isolation(false)]
#[verifier::spinoff_prover]
#[verifier::rlimit(100)]
fn collect_matches(
    files: &Vec<CorpusFile>,
    query_lower: &str,
    query_original: &str,
    scope: SearchScope,
    cutoff: Option<i64>,
    limit: usize,
) -> (r: Vec<SearchResult>)
    requires
        limit > 0,
    ensures
        srs_view(r@) == take_at_most(
            corpus_results(cf_view_seq(files@), query_lower@, query_original@, scope, cutoff),
            limit as int,
        ),
{
    let ghost fsv = cf_view_seq(files@);
    let ghost full = corpus_results(fsv, query_lower@, query_original@, scope, cutoff);
    let mut results: Vec<SearchResult> = Vec::new();
    let mut i: usize = 0;
    proof {
        assert(fsv.skip(0) =~= fsv);
        assert(srs_view(results@) =~= Seq::<SearchResultV>::empty());
    }
    while i < files.len()
        invariant
            i <= files@.len(),
            results@.len() < limit,
            full == srs_view(results@) + corpus_results(
                fsv.skip(i as int),
                query_lower@,
                query_original@,
                scope,
                cutoff,
            ),
        decreases files@.len() - i,
    {
        proof {
            assert(fsv.skip(i as int)[0] == fsv[i as int]);
            assert(fsv.skip(i as int).subrange(1, fsv.skip(i as int).len() as int) =~= fsv.skip(
                i as int + 1,
            ));
        }
        let ghost frs = file_results(fsv[i as int], query_lower@, query_original@, scope, cutoff);
        let f = &files[i];
        assert(cf_view(*f) == fsv[i as int]);
        match deserialize_record(f.text.as_str()) {
            Some(rec) => {
                let keep: bool = match cutoff {
                    Some(c) => match parse_rfc3339_millis(rec.timestamp.as_str()) {
                        Some(t) => t >= c,
                        None => true,
                    },
                    None => true,
                };
                assert(keep == passes_date(crate::output::dv_view(rec).timestamp, cutoff));
                if keep {
                    let ghost conv = crate::output::dv_view(rec).conversation;
                    let ghost args_ts = crate::output::dv_view(rec).timestamp;
                    let mut j: usize = 0;
                    proof {
                        assert(conv.skip(0) =~= conv);
                    }
                    while j < rec.conversation.len()
                        invariant
                            j <= rec.conversation@.len(),
                            conv == crate::output::dv_view(rec).conversation,
                            conv.len() == rec.conversation@.len(),
                            results@.len() < limit,
                            full == srs_view(results@) + record_results(
                                conv.skip(j as int),
                                query_lower@,
                                query_original@,
                                scope,
                                fsv[i as int].machine,
                                fsv[i as int].project,
                                crate::output::dv_view(rec).session_id,
                                fsv[i as int].file_name,
                                crate::output::dv_view(rec).timestamp,
                            ) + corpus_results(
                                fsv.skip(i as int + 1),
                                query_lower@,
                                query_original@,
                                scope,
                                cutoff,
                            ),
                        decreases rec.conversation@.len() - j,
                    {
                        proof {
                            assert(conv.skip(j as int)[0] == conv[j as int]);
                            assert(conv.skip(j as int).subrange(
                                1,
                                conv.skip(j as int).len() as int,
                            ) =~= conv.skip(j as int + 1));
                            assert(ce_view(rec.conversation@[j as int]) == conv[j as int]);
                        }
                        match search_entry(
                            &rec.conversation[j],
                            query_lower,
                            query_original,
                            scope,
                            f.machine.as_str(),
                            f.project.as_str(),
                            rec.session_id.as_str(),
                            f.file_name.as_str(),
                            rec.timestamp.as_str(),
                        ) {
                            Some(res) => {
                                let ghost old_results = results@;
                                results.push(res);
                                proof {
                                    assert(srs_view(results@) =~= srs_view(old_results).push(
                                        sr_view(res),
                                    ));
                                    assert(srs_view(results@) =~= srs_view(old_results) + seq![
                                        sr_view(res),
                                    ]);
                                }
                                if results.len() >= limit {
                                    proof {
                                        assert(full =~= srs_view(results@) + (record_results(
                                            conv.skip(j as int + 1),
                                            query_lower@,
                                            query_original@,
                                            scope,
                                            fsv[i as int].machine,
                                            fsv[i as int].project,
                                            crate::output::dv_view(rec).session_id,
                                            fsv[i as int].file_name,
                                            crate::output::dv_view(rec).timestamp,
                                        ) + corpus_results(
                                            fsv.skip(i as int + 1),
                                            query_lower@,
                                            query_original@,
                                            scope,
                                            cutoff,
                                        )));
                                        lemma_take_prefix(
                                            full,
                                            srs_view(results@),
                                            record_results(
                                                conv.skip(j as int + 1),
                                                query_lower@,
                                                query_original@,
                                                scope,
                                                fsv[i as int].machine,
                                                fsv[i as int].project,
                                                crate::output::dv_view(rec).session_id,
                                                fsv[i as int].file_name,
                                                crate::output::dv_view(rec).timestamp,
                                            ) + corpus_results(
                                                fsv.skip(i as int + 1),
                                                query_lower@,
                                                query_original@,
                                                scope,
                                                cutoff,
                                            ),
                                            limit as int,
                                        );
                                    }
                                    return results;
                                }
                            },
                            None => {},
                        }
                        j = j + 1;
                    }
                    proof {
                        assert(conv.skip(conv.len() as int).len() == 0);
                    }
                } else {
                    assert(frs =~= Seq::<SearchResultV>::empty());
                }
            },
            None => {
                assert(frs =~= Seq::<SearchResultV>::empty());
            },
        }
        i = i + 1;
    }
    proof {
        assert(fsv.skip(fsv.len() as int).len() == 0);
        assert(full =~= srs_view(results@));
    }
    results
}

/// A stable insertion at a found position equals the specified
/// insertion.
proof fn lemma_insert_at(s: Seq<SearchResultV>, x: SearchResultV, i: int)
    requires
        0 <= i <= s.len(),
        forall|j: int| 0 <= j < i ==> lex_le(x.timestamp, (#[trigger] s[j]).timestamp),
        i < s.len() ==> !lex_le(x.timestamp, s[i].timestamp),
    ensures
        insert_desc(s, x) == s.insert(i, x),
    decreases s.len(),
{
    if s.len() == 0 {
        assert(insert_desc(s, x) =~= s.insert(0, x));
    } else if i == 0 {
        assert(insert_desc(s, x) =~= s.insert(0, x));
    } else {
        let st = s.subrange(1, s.len() as int);
        assert(forall|j: int| 0 <= j < i - 1 ==> lex_le(x.timestamp, (#[trigger] st[j]).timestamp))
            by {
            assert(forall|j: int| 0 <= j < i - 1 ==> st[j] == s[j + 1]);
        }
        assert(i - 1 < st.len() ==> !lex_le(x.timestamp, st[i - 1].timestamp));
        lemma_insert_at(st, x, i - 1);
        assert(insert_desc(s, x) =~= s.insert(i, x));
    }
}

/// Sorts results by timestamp descending with stable insertion.
fn sort_results(v: &Vec<SearchResult>) -> (r: Vec<SearchResult>)
    ensures
        srs_view(r@) == sort_desc(srs_view(v@)),
{
    let ghost orig = srs_view(v@);
    let mut sorted: Vec<SearchResult> = Vec::new();
    let mut k: usize = 0;
    proof {
        assert(orig.subrange(0, 0) =~= Seq::<SearchResultV>::empty());
        assert(srs_view(sorted@) =~= sort_desc(orig.subrange(0, 0)));
    }
    while k < v.len()
        invariant
            k <= v@.len(),
            orig == srs_view(v@),
            orig.len() == v@.len(),
            srs_view(sorted@) == sort_desc(orig.subrange(0, k as int)),
        decreases v@.len() - k,
    {
        let x = clone_result(&v[k]);
        let ghost xv = sr_view(x);
        assert(xv == orig[k as int]);
        let ghost before = srs_view(sorted@);
        let mut pos: usize = 0;
        while pos < sorted.len() && str_le(x.timestamp.as_str(), sorted[pos].timestamp.as_str())
            invariant
                pos <= sorted@.len(),
                before == srs_view(sorted@),
                before.len() == sorted@.len(),
                xv == sr_view(x),
                forall|j: int| 0 <= j < pos ==> lex_le(xv.timestamp, (#[trigger] before[j]).timestamp),
            decreases sorted@.len() - pos,
        {
            assert(before[pos as int] == sr_view(sorted@[pos as int]));
            pos = pos + 1;
        }
        proof {
            if pos < sorted@.len() {
                assert(before[pos as int] == sr_view(sorted@[pos as int]));
            }
            lemma_insert_at(before, xv, pos as int);
            before.insert_ensures(pos as int, xv);
        }
        sorted.insert(pos, x);
        proof {
            sorted@.subrange(0, pos as int);
            assert(srs_view(sorted@) =~= before.insert(pos as int, xv)) by {
                assert(forall|j: int|
                    0 <= j < pos ==> sorted@[j] == sorted@.subrange(0, pos as int)[j]);
            }
            assert(orig.subrange(0, k as int + 1).subrange(0, k as int) =~= orig.subrange(
                0,
                k as int,
            ));
            assert(orig.subrange(0, k as int + 1).last() == orig[k as int]);
            assert(srs_view(sorted@) == sort_desc(orig.subrange(0, k as int + 1)));
        }
        k = k + 1;
    }
    assert(orig.subrange(0, orig.len() as int) =~= orig);
    sorted
}

/// Searches an in-memory corpus: applies the scope and recency
/// filters, matches case-insensitively, keeps the first `limit`
/// matches in scan order, and returns them newest first.  A limit of
/// zero yields no results.  Note that the limit cuts the scan short
/// before the sort, so on a corpus with more matches than the limit
/// the newest matches overall may never be seen; the sort only orders
/// what the scan kept.
pub fn search_corpus(
    files: &Vec<CorpusFile>,
    query: &str,
    scope: SearchScope,
    cutoff: Option<i64>,
    limit: usize,
) -> (r: Vec<SearchResult>)
    ensures
        srs_view(r@) == spec_search(cf_view_seq(files@), query@, scope, cutoff, limit as int),
{
    if limit == 0 {
        let r: Vec<SearchResult> = Vec::new();
        proof {
            let full = corpus_results(
                cf_view_seq(files@),
                lower_seq(query@),
                query@,
                scope,
                cutoff,
            );
            assert(take_at_most(full, 0) =~= Seq::<SearchResultV>::empty());
            assert(srs_view(r@) =~= spec_search(
                cf_view_seq(files@),
                query@,
                scope,
                cutoff,
                0,
            ));
        }
        return r;
    }
    let qv = chars_of(query);
    let ql_vec = lower_vec(&qv);
    let ql = string_of(&ql_vec);
    let matches = collect_matches(files, ql.as_str(), query, scope, cutoff, limit);
    sort_results(&matches)
}

/// Searches the corpus within a recency window of `days` days ending
/// now: whatever instant the clock read, the result is exactly the
/// search for that instant's cutoff; no window, no cutoff.
pub fn search_devlogs(
    files: &Vec<CorpusFile>,
    query: &str,
    scope: SearchScope,
    days: Option<u32>,
    limit: usize,
) -> (r: Vec<SearchResult>)
    ensures
        exists|now: i64|
            srs_view(r@) == spec_search(
                cf_view_seq(files@),
                query@,
                scope,
                spec_cutoff_opt(days, now),
                limit as int,
            ),
{
    let cutoff: Option<i64> = match days {
        Some(d) => Some(cutoff_for_days(d)),
        None => None,
    };
    let r = search_corpus(files, query, scope, cutoff, limit);
    proof {
        match days {
            Some(d) => {
                let now = choose|n: i64| cutoff->0 == spec_cutoff(d, n);
                assert(spec_cutoff_opt(days, now) == cutoff);
                assert(srs_view(r@) == spec_search(
                    cf_view_seq(files@),
                    query@,
                    scope,
                    spec_cutoff_opt(days, now),
                    limit as int,
                ));
            },
            None => {
                assert(spec_cutoff_opt(days, 0) == cutoff);
                assert(srs_view(r@) == spec_search(
                    cf_view_seq(files@),
                    query@,
                    scope,
                    spec_cutoff_opt(days, 0),
                    limit as int,
                ));
            },
        }
    }
    r
}

/// Every result carries the "user" tag.
pub open spec fn all_user_results(rs: Seq<SearchResultV>) -> bool {
    forall|i: int| 0 <= i < rs.len() ==> (#[trigger] rs[i]).entry_type == "user"@
}

proof fn lemma_record_results_prompts(
    conv: Seq<ConversationEntryV>,
    query_lower: Seq<char>,
    query_original: Seq<char>,
    scope: SearchScope,
    machine: Seq<char>,
    project: Seq<char>,
    session_id: Seq<char>,
    session_file: Seq<char>,
    timestamp: Seq<char>,
)
    requires
        scope is PromptsOnly,
    ensures
        all_user_results(
            record_results(
                conv,
                query_lower,
                query_original,
                scope,
                machine,
                project,
                session_id,
                session_file,
                timestamp,
            ),
        ),
    decreases conv.len(),
{
    if conv.len() > 0 {
        lemma_record_results_prompts(
            conv.subrange(1, conv.len() as int),
            query_lower,
            query_original,
            scope,
            machine,
            project,
            session_id,
            session_file,
            timestamp,
        );
    }
}

proof fn lemma_corpus_results_prompts(
    files: Seq<CorpusFileV>,
    query_lower: Seq<char>,
    query_original: Seq<char>,
    scope: SearchScope,
    cutoff: Option<i64>,
)
    requires
        scope is PromptsOnly,
    ensures
        all_user_results(corpus_results(files, query_lower, query_original, scope, cutoff)),
    decreases files.len(),
{
    if files.len() > 0 {
        match record_of_text(files[0].text) {
            Some(rec) => {
                lemma_record_results_prompts(
                    rec.conversation,
                    query_lower,
                    query_original,
                    scope,
                    files[0].machine,
                    files[0].project,
                    rec.session_id,
                    files[0].file_name,
                    rec.timestamp,
                );
            },
            None => {},
        }
        lemma_corpus_results_prompts(
            files.subrange(1, files.len() as int),
            query_lower,
            query_original,
            scope,
            cutoff,
        );
    }
}

proof fn lemma_insert_desc_prompts(s: Seq<SearchResultV>, x: SearchResultV)
    requires
        all_user_results(s),
        x.entry_type == "user"@,
    ensures
        all_user_results(insert_desc(s, x)),
    decreases s.len(),
{
    if s.len() > 0 && lex_le(x.timestamp, s[0].timestamp) {
        assert(all_user_results(s.subrange(1, s.len() as int)));
        lemma_insert_desc_prompts(s.subrange(1, s.len() as int), x);
    }
}

proof fn lemma_sort_desc_prompts(s: Seq<SearchResultV>)
    requires
        all_user_results(s),
    ensures
        all_user_results(sort_desc(s)),
    decreases s.len(),
{
    if s.len() > 0 {
        assert(all_user_results(s.subrange(0, s.len() - 1)));
        lemma_sort_desc_prompts(s.subrange(0, s.len() - 1));
        lemma_insert_desc_prompts(sort_desc(s.subrange(0, s.len() - 1)), s[s.len() - 1]);
    }
}

/// Law: a search over prompts only never returns a result tagged
/// "assistant" or "tool"; every result of such a search is a user
/// turn.
pub proof fn lemma_prompts_only_results(
    files: Seq<CorpusFileV>,
    query: Seq<char>,
    scope: SearchScope,
    cutoff: Option<i64>,
    limit: int,
)
    requires
        scope is PromptsOnly,
    ensures
        all_user_results(spec_search(files, query, scope, cutoff, limit)),
{
    let full = corpus_results(files, lower_seq(query), query, scope, cutoff);
    lemma_corpus_results_prompts(files, lower_seq(query), query, scope, cutoff);
    let kept = take_at_most(full, limit);
    assert forall|i: int| 0 <= i < kept.len() implies (#[trigger] kept[i]).entry_type == "user"@ by {
        assert(kept[i] == full[i]);
    }
    assert(all_user_results(take_at_most(full, limit)));
    lemma_sort_desc_prompts(take_at_most(full, limit));
}

/// Law: with no case-insensitive match in the content, the snippet is
/// the content's first 200 characters (or all of it when shorter).
pub proof fn lemma_snippet_no_match(content: Seq<char>, query_lower: Seq<char>)
    requires
        !contains_seq(lower_seq(content), query_lower),
    ensures
        spec_snippet(content, query_lower) == take_at_most(content, 200),
{
}

/// The number of leading whitespace characters.
spec fn leading_spaces(s: Seq<char>) -> int
    decreases s.len(),
{
    if s.len() > 0 && is_space_char(s[0]) {
        1 + leading_spaces(s.subrange(1, s.len() as int))
    } else {
        0
    }
}

proof fn lemma_trim_front_shape(s: Seq<char>)
    ensures
        0 <= leading_spaces(s) <= s.len(),
        trim_front(s) == s.skip(leading_spaces(s)),
        forall|j: int| 0 <= j < leading_spaces(s) ==> is_space_char(#[trigger] s[j]),
        leading_spaces(s) < s.len() ==> !is_space_char(s[leading_spaces(s)]),
    decreases s.len(),
{
    if s.len() > 0 && is_space_char(s[0]) {
        let t = s.subrange(1, s.len() as int);
        lemma_trim_front_shape(t);
        assert(t.skip(leading_spaces(t)) =~= s.skip(1 + leading_spaces(t)));
        assert forall|j: int| 0 <= j < leading_spaces(s) implies is_space_char(
            #[trigger] s[j],
        ) by {
            if j > 0 {
                assert(t[j - 1] == s[j]);
            }
        }
        if leading_spaces(t) < t.len() {
            assert(t[leading_spaces(t)] == s[leading_spaces(s)]);
        }
    } else {
        assert(s.skip(0) =~= s);
    }
}

/// The number of trailing whitespace characters.
spec fn trailing_spaces(s: Seq<char>) -> int
    decreases s.len(),
{
    if s.len() > 0 && is_space_char(s[s.len() - 1]) {
        1 + trailing_spaces(s.subrange(0, s.len() - 1))
    } else {
        0
    }
}

proof fn lemma_trim_back_shape(s: Seq<char>)
    ensures
        0 <= trailing_spaces(s) <= s.len(),
        trim_back(s) == s.take(s.len() - trailing_spaces(s)),
        forall|j: int| s.len() - trailing_spaces(s) <= j < s.len() ==> is_space_char(#[trigger] s[j]),
        trailing_spaces(s) < s.len() ==> !is_space_char(s[s.len() - trailing_spaces(s) - 1]),
    decreases s.len(),
{
    if s.len() > 0 && is_space_char(s[s.len() - 1]) {
        let t = s.subrange(0, s.len() - 1);
        lemma_trim_back_shape(t);
        assert(t.take(t.len() - trailing_spaces(t)) =~= s.take(s.len() - trailing_spaces(s)));
        assert(forall|j: int| 0 <= j < t.len() ==> t[j] == s[j]);
    } else {
        assert(s.take(s.len() as int) =~= s);
    }
}

/// Some match exists, so a first match exists.
proof fn lemma_first_exists(s: Seq<char>, q: Seq<char>, i: int)
    requires
        match_at(s, q, i),
    ensures
        exists|k: int|
            match_at(s, q, k) && (forall|j: int| 0 <= j < k ==> !match_at(s, q, j)),
    decreases i,
{
    if forall|j: int| 0 <= j < i ==> !match_at(s, q, j) {
        assert(match_at(s, q, i) && (forall|j: int| 0 <= j < i ==> !match_at(s, q, j)));
    } else {
        let w = choose|j: int| 0 <= j < i && match_at(s, q, j);
        lemma_first_exists(s, q, w);
    }
}

/// The first match position is a first match.
proof fn lemma_first_match_pos(s: Seq<char>, q: Seq<char>)
    requires
        contains_seq(s, q),
    ensures
        match_at(s, q, first_match_pos(s, q)),
        forall|j: int| 0 <= j < first_match_pos(s, q) ==> !match_at(s, q, j),
{
    let any = choose|i: int| match_at(s, q, i);
    lemma_first_exists(s, q, any);
    let p = first_match_pos(s, q);
    assert(match_at(s, q, p) && (forall|j: int| 0 <= j < p ==> !match_at(s, q, j)));
}

/// Law: when the content's first case-insensitive match starts within
/// the first window and the content ends within the window after it,
/// and the matched text has no whitespace at its edges, the snippet
/// contains the matched text itself.  (A match deep inside a long,
/// space-poor text can be cut by the window snapping, so those inputs
/// are excluded.)
pub proof fn lemma_snippet_contains_match(content: Seq<char>, query_lower: Seq<char>)
    requires
        query_lower.len() > 0,
        contains_seq(lower_seq(content), query_lower),
        first_match_pos(lower_seq(content), query_lower) <= 80,
        content.len() <= first_match_pos(lower_seq(content), query_lower) + query_lower.len() + 80,
        !is_space_char(content[first_match_pos(lower_seq(content), query_lower)]),
        !is_space_char(
            content[first_match_pos(lower_seq(content), query_lower) + query_lower.len() - 1],
        ),
    ensures
        contains_seq(
            spec_snippet(content, query_lower),
            content.subrange(
                first_match_pos(lower_seq(content), query_lower),
                first_match_pos(lower_seq(content), query_lower) + query_lower.len(),
            ),
        ),
{
    let cl = lower_seq(content);
    let p = first_match_pos(cl, query_lower);
    lemma_first_match_pos(cl, query_lower);
    assert(cl.len() == content.len());
    assert(0 <= p && p + query_lower.len() <= content.len());
    let ec = p + query_lower.len() + 80;
    let core = content.subrange(0, content.len() as int);
    assert(core =~= content);
    let m = content.subrange(p, p + query_lower.len());
    assert(m.len() == query_lower.len());
    lemma_trim_front_shape(content);
    let a = leading_spaces(content);
    assert(a <= p) by {
        if a > p {
            assert(is_space_char(content[p]));
        }
    }
    let front = content.skip(a);
    lemma_trim_back_shape(front);
    let b = trailing_spaces(front);
    let e = content.len() - b;
    let trimmed = front.take(front.len() - b);
    assert(trim_seq(content) == trimmed);
    assert(trimmed =~= content.subrange(a, e));
    assert(p + query_lower.len() <= e) by {
        if p + query_lower.len() - 1 >= e {
            assert(front[p + query_lower.len() - 1 - a] == content[p + query_lower.len() - 1]);
            assert(is_space_char(content[p + query_lower.len() - 1]));
        }
    }
    assert(trimmed.subrange(p - a, p - a + m.len()) =~= m) by {
        assert(forall|j: int|
            0 <= j < m.len() ==> #[trigger] trimmed.subrange(p - a, p - a + m.len())[j]
                == content[p + j]);
    }
    assert(match_at(trimmed, m, p - a));
    let snippet = spec_snippet(content, query_lower);
    assert(snippet == Seq::<char>::empty() + trimmed + Seq::<char>::empty());
    assert(snippet =~= trimmed);
    assert(contains_seq(snippet, m));
}

/// Results ordered by timestamp, newest first.
pub open spec fn sorted_by_time_desc(s: Seq<SearchResultV>) -> bool {
    forall|i: int, j: int|
        #![trigger s[i], s[j]]
        0 <= i < j < s.len() ==> lex_le(s[j].timestamp, s[i].timestamp)
}

proof fn lemma_insert_desc_members(s: Seq<SearchResultV>, x: SearchResultV)
    ensures
        insert_desc(s, x).len() == s.len() + 1,
        forall|k: int|
            0 <= k < insert_desc(s, x).len() ==> (#[trigger] insert_desc(s, x)[k] == x
                || s.contains(insert_desc(s, x)[k])),
    decreases s.len(),
{
    let r = insert_desc(s, x);
    if s.len() == 0 {
        assert(r[0] == x);
    } else if !lex_le(x.timestamp, s[0].timestamp) {
        assert forall|k: int| 0 <= k < r.len() implies (#[trigger] r[k] == x || s.contains(
            r[k],
        )) by {
            if k > 0 {
                assert(r[k] == s[k - 1]);
            }
        }
    } else {
        let t = s.subrange(1, s.len() as int);
        lemma_insert_desc_members(t, x);
        assert forall|k: int| 0 <= k < r.len() implies (#[trigger] r[k] == x || s.contains(
            r[k],
        )) by {
            if k == 0 {
                assert(r[0] == s[0]);
            } else {
                assert(r[k] == insert_desc(t, x)[k - 1]);
                if insert_desc(t, x)[k - 1] == x {
                } else {
                    let m = choose|m: int| 0 <= m < t.len() && t[m] == insert_desc(t, x)[k - 1];
                    assert(s[m + 1] == r[k]);
                }
            }
        }
    }
}

proof fn lemma_insert_desc_sorted(s: Seq<SearchResultV>, x: SearchResultV)
    requires
        sorted_by_time_desc(s),
    ensures
        sorted_by_time_desc(insert_desc(s, x)),
    decreases s.len(),
{
    let r = insert_desc(s, x);
    if s.len() == 0 {
    } else if !lex_le(x.timestamp, s[0].timestamp) {
        lemma_lex_le_total(x.timestamp, s[0].timestamp);
        assert forall|i: int, j: int|
            #![trigger r[i], r[j]]
            0 <= i < j < r.len() implies lex_le(r[j].timestamp, r[i].timestamp) by {
            assert(r[j] == s[j - 1]);
            if i == 0 {
                if j == 1 {
                } else {
                    assert(lex_le(s[j - 1].timestamp, s[0].timestamp));
                    lemma_lex_le_trans(s[j - 1].timestamp, s[0].timestamp, x.timestamp);
                }
            } else {
                assert(r[i] == s[i - 1]);
            }
        }
    } else {
        let t = s.subrange(1, s.len() as int);
        assert(sorted_by_time_desc(t)) by {
            assert(forall|i: int, j: int|
                #![trigger t[i], t[j]]
                0 <= i < j < t.len() ==> t[i] == s[i + 1] && t[j] == s[j + 1]);
        }
        lemma_insert_desc_sorted(t, x);
        lemma_insert_desc_members(t, x);
        let ti = insert_desc(t, x);
        assert forall|i: int, j: int|
            #![trigger r[i], r[j]]
            0 <= i < j < r.len() implies lex_le(r[j].timestamp, r[i].timestamp) by {
            if i == 0 {
                assert(r[0] == s[0]);
                assert(r[j] == ti[j - 1]);
                if ti[j - 1] == x {
                } else {
                    let m = choose|m: int| 0 <= m < t.len() && t[m] == ti[j - 1];
                    assert(s[m + 1] == ti[j - 1]);
                    assert(lex_le(s[m + 1].timestamp, s[0].timestamp));
                }
            } else {
                assert(r[i] == ti[i - 1] && r[j] == ti[j - 1]);
            }
        }
    }
}

proof fn lemma_sort_desc_sorted(s: Seq<SearchResultV>)
    ensures
        sorted_by_time_desc(sort_desc(s)),
    decreases s.len(),
{
    if s.len() > 0 {
        lemma_sort_desc_sorted(s.subrange(0, s.len() - 1));
        lemma_insert_desc_sorted(sort_desc(s.subrange(0, s.len() - 1)), s[s.len() - 1]);
    }
}

/// Law: a search's results come ordered by timestamp, newest first.
pub proof fn lemma_search_sorted(
    files: Seq<CorpusFileV>,
    query: Seq<char>,
    scope: SearchScope,
    cutoff: Option<i64>,
    limit: int,
)
    ensures
        sorted_by_time_desc(spec_search(files, query, scope, cutoff, limit)),
{
    lemma_sort_desc_sorted(
        take_at_most(corpus_results(files, lower_seq(query), query, scope, cutoff), limit),
    );
}

} // verus!
