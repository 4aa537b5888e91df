//! The tool action summarizer: one short human-readable line per tool
//! invocation, with per-tool formatting rules and bounded-length
//! arguments.  Pure, deterministic string work, fully verified.

use vstd::prelude::*;
use crate::json::{JsonVal, JsonValV, jv_view, jv_str, obj_lookup, obj_get, as_str_val};
use crate::model::{RawEntry, RawEntryV, ToolUse, ToolUseV, re_view, tu_view, opt_jv_view};
use crate::text::{chars_of, string_of, str_eq};
use vstd::string::StringExecFns;

verus! {

/// `s` cut to at most `limit` characters: unchanged when it fits,
/// otherwise its first `limit - 3` characters followed by "...".
pub open spec fn truncated(s: Seq<char>, limit: int) -> Seq<char> {
    if s.len() <= limit {
        s
    } else {
        s.subrange(0, limit - 3) + seq!['.', '.', '.']
    }
}

/// Law: truncation never exceeds the limit, and a string that fits
/// the limit is returned unchanged.  A limit under three is covered
/// only for fitting strings: on a longer string the stated rule
/// (keep the first `limit - 3` characters, append "...") has no
/// meaning there, and the truncation it describes cannot be
/// performed.
pub proof fn lemma_truncated_bounded(s: Seq<char>, limit: int)
    requires
        s.len() <= limit || limit >= 3,
    ensures
        truncated(s, limit).len() <= limit,
        s.len() <= limit ==> truncated(s, limit) == s,
{
}

/// Cuts a string to at most `max_len` characters.  The result never
/// exceeds the limit and equals the input whenever the input fits.
/// A string that must actually be cut needs room for the ellipsis,
/// so a limit under three is admitted only when the input fits it.
pub fn truncate(s: &str, max_len: usize) -> (r: String)
    requires
        s@.len() <= max_len || max_len >= 3,
    ensures
        r@ == truncated(s@, max_len as int),
        r@.len() <= max_len,
        s@.len() <= max_len ==> r@ == s@,
{
    let v = chars_of(s);
    if v.len() <= max_len {
        s.to_owned()
    } else {
        let mut w: Vec<char> = Vec::new();
        let mut i: usize = 0;
        while i < max_len - 3
            invariant
                max_len >= 3,
                i <= max_len - 3,
                max_len - 3 <= v@.len(),
                v@ == s@,
                w@ == s@.subrange(0, i as int),
            decreases max_len - 3 - i,
        {
            w.push(v[i]);
            assert(w@ =~= s@.subrange(0, i + 1));
            i = i + 1;
        }
        w.push('.');
        w.push('.');
        w.push('.');
        assert(w@ =~= s@.subrange(0, max_len - 3) + seq!['.', '.', '.']);
        string_of(&w)
    }
}

/// The string member `key` of the input object, or `dflt` when the
/// input is absent, has no such member, or the member is not a string.
pub open spec fn input_field_or(input: Option<JsonValV>, key: Seq<char>, dflt: Seq<char>) -> Seq<
    char,
> {
    match input {
        Some(t) => match obj_lookup(t, key) {
            Some(v) => match jv_str(v) {
                Some(s) => s,
                None => dflt,
            },
            None => dflt,
        },
        None => dflt,
    }
}

/// The file path named by a tool input: member "file_path", else
/// member "path" when "file_path" is absent, else "<unknown>".
pub open spec fn spec_path_of(input: Option<JsonValV>) -> Seq<char> {
    match input {
        Some(t) => match obj_lookup(t, "file_path"@) {
            Some(v) => match jv_str(v) {
                Some(s) => s,
                None => "<unknown>"@,
            },
            None => input_field_or(input, "path"@, "<unknown>"@),
        },
        None => "<unknown>"@,
    }
}

/// The action line for one tool invocation.
pub open spec fn spec_tool_action(name: Seq<char>, input: Option<JsonValV>) -> Seq<char> {
    if name == "Edit"@ || name == "MultiEdit"@ {
        "edited "@ + spec_path_of(input)
    } else if name == "Write"@ {
        "created "@ + spec_path_of(input)
    } else if name == "Read"@ {
        "read "@ + spec_path_of(input)
    } else if name == "Bash"@ {
        "ran "@ + truncated(input_field_or(input, "command"@, "<command>"@), 50)
    } else if name == "Glob"@ || name == "Grep"@ {
        "searched for "@ + truncated(input_field_or(input, "pattern"@, "<pattern>"@), 40)
    } else if name == "Task"@ {
        "used subagent"@
    } else if name == "WebSearch"@ {
        "used WebSearch"@
    } else if name == "WebFetch"@ {
        "fetched "@ + truncated(input_field_or(input, "url"@, "<url>"@), 40)
    } else if name == "TodoWrite"@ {
        "updated todo list"@
    } else {
        "used "@ + name
    }
}

/// The action line of a standalone tool entry: present exactly when
/// the entry names a tool.
pub open spec fn spec_summarize_entry(e: RawEntryV) -> Option<Seq<char>> {
    match e.tool {
        Some(name) => Some(spec_tool_action(name, e.input)),
        None => None,
    }
}

/// The action line of an inline invocation: named by `name`, else by
/// its type tag, else nothing.
pub open spec fn spec_summarize_tool(t: ToolUseV) -> Option<Seq<char>> {
    match t.name {
        Some(n) => Some(spec_tool_action(n, t.input)),
        None => match t.tool_type {
            Some(n) => Some(spec_tool_action(n, t.input)),
            None => None,
        },
    }
}

/// Reads one string member of the input payload, with a fallback.
fn input_field_or_exec(input: &Option<JsonVal>, key: &str, dflt: &str) -> (r: String)
    ensures
        r@ == input_field_or(opt_jv_view(*input), key@, dflt@),
{
    match input {
        Some(t) => match obj_get(t, key) {
            Some(v) => match as_str_val(v) {
                Some(s) => s.clone(),
                None => dflt.to_owned(),
            },
            None => dflt.to_owned(),
        },
        None => dflt.to_owned(),
    }
}

/// Reads the file path of a tool input.
fn path_of(input: &Option<JsonVal>) -> (r: String)
    ensures
        r@ == spec_path_of(opt_jv_view(*input)),
{
    match input {
        Some(t) => match obj_get(t, "file_path") {
            Some(v) => match as_str_val(v) {
                Some(s) => s.clone(),
                None => "<unknown>".to_owned(),
            },
            None => input_field_or_exec(input, "path", "<unknown>"),
        },
        None => "<unknown>".to_owned(),
    }
}

/// Builds the action line for one tool invocation.
pub fn format_tool_action(tool_name: &str, input: &Option<JsonVal>) -> (r: String)
    ensures
        r@ == spec_tool_action(tool_name@, opt_jv_view(*input)),
{
    if str_eq(tool_name, "Edit") || str_eq(tool_name, "MultiEdit") {
        let mut r = "edited ".to_owned();
        let p = path_of(input);
        r.append(p.as_str());
        r
    } else if str_eq(tool_name, "Write") {
        let mut r = "created ".to_owned();
        let p = path_of(input);
        r.append(p.as_str());
        r
    } else if str_eq(tool_name, "Read") {
        let mut r = "read ".to_owned();
        let p = path_of(input);
        r.append(p.as_str());
        r
    } else if str_eq(tool_name, "Bash") {
        let cmd = input_field_or_exec(input, "command", "<command>");
        let mut r = "ran ".to_owned();
        let t = truncate(cmd.as_str(), 50);
        r.append(t.as_str());
        r
    } else if str_eq(tool_name, "Glob") || str_eq(tool_name, "Grep") {
        let pat = input_field_or_exec(input, "pattern", "<pattern>");
        let mut r = "searched for ".to_owned();
        let t = truncate(pat.as_str(), 40);
        r.append(t.as_str());
        r
    } else if str_eq(tool_name, "Task") {
        "used subagent".to_owned()
    } else if str_eq(tool_name, "WebSearch") {
        "used WebSearch".to_owned()
    } else if str_eq(tool_name, "WebFetch") {
        let url = input_field_or_exec(input, "url", "<url>");
        let mut r = "fetched ".to_owned();
        let t = truncate(url.as_str(), 40);
        r.append(t.as_str());
        r
    } else if str_eq(tool_name, "TodoWrite") {
        "updated todo list".to_owned()
    } else {
        let mut r = "used ".to_owned();
        r.append(tool_name);
        r
    }
}

/// Summarizes a standalone "tool_use" entry, if it names a tool.
pub fn summarize_tool_use(e: &RawEntry) -> (r: Option<String>)
    ensures
        match r {
            Some(s) => spec_summarize_entry(re_view(*e)) == Some(s@),
            None => spec_summarize_entry(re_view(*e)) is None,
        },
{
    match &e.tool {
        Some(name) => Some(format_tool_action(name.as_str(), &e.input)),
        None => None,
    }
}

/// Summarizes one inline tool invocation, if it carries a name.
pub fn summarize_tool_use_from_tool(t: &ToolUse) -> (r: Option<String>)
    ensures
        match r {
            Some(s) => spec_summarize_tool(tu_view(*t)) == Some(s@),
            None => spec_summarize_tool(tu_view(*t)) is None,
        },
{
    match &t.name {
        Some(n) => Some(format_tool_action(n.as_str(), &t.input)),
        None => match &t.tool_type {
            Some(n) => Some(format_tool_action(n.as_str(), &t.input)),
            None => None,
        },
    }
}

} // verus!
