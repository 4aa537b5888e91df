//! Pure helpers of the receiving side: the server's configuration,
//! HTML escaping for the stats page, and extracting a project name
//! from a directory path.  The HTTP transport itself is I/O and lives
//! with the application around the library.

use vstd::prelude::*;
use vstd::string::{StrSliceExecFns, StringExecFns};
use crate::text::{chars_of, string_of};

verus! {

/// The receiving server's configuration.  The storage directory is
/// carried as its textual path.
pub struct ServerConfig {
    pub storage_dir: String,
    pub port: u16,
}

impl Default for ServerConfig {
    /// The default configuration.
    fn default() -> (r: Self)
        ensures
            r.storage_dir@ == "/store/devolver"@ && r.port == 8090,
    {
        ServerConfig { storage_dir: String::from_str("/store/devolver"), port: 8090 }
    }
}

/// The HTML escape of one character.
pub open spec fn esc_char(c: char) -> Seq<char> {
    if c == '&' {
        "&amp;"@
    } else if c == '<' {
        "&lt;"@
    } else if c == '>' {
        "&gt;"@
    } else if c == '"' {
        "&quot;"@
    } else {
        seq![c]
    }
}

/// The HTML escape of a text, character by character.
pub open spec fn escaped(s: Seq<char>) -> Seq<char>
    decreases s.len(),
{
    if s.len() == 0 {
        Seq::empty()
    } else {
        esc_char(s[0]) + escaped(s.subrange(1, s.len() as int))
    }
}

/// Appending a character extends the escape at the back.
proof fn lemma_escaped_push(s: Seq<char>, c: char)
    ensures
        escaped(s.push(c)) == escaped(s) + esc_char(c),
    decreases s.len(),
{
    if s.len() == 0 {
        assert(s.push(c)[0] == c);
        assert(s.push(c).subrange(1, 1) =~= Seq::<char>::empty());
        assert(s =~= Seq::<char>::empty());
        assert(escaped(s.push(c)) =~= escaped(s) + esc_char(c));
    } else {
        assert(s.push(c)[0] == s[0]);
        assert(s.push(c).subrange(1, s.len() as int + 1) =~= s.subrange(1, s.len() as int).push(
            c,
        ));
        lemma_escaped_push(s.subrange(1, s.len() as int), c);
        assert(escaped(s.push(c)) =~= escaped(s) + esc_char(c));
    }
}

/// Escapes a text for embedding in HTML.
pub fn html_escape(s: &str) -> (r: String)
    ensures
        r@ == escaped(s@),
{
    let v = chars_of(s);
    let mut out = String::new();
    let mut i: usize = 0;
    proof {
        assert(s@.subrange(0, 0) =~= Seq::<char>::empty());
    }
    while i < v.len()
        invariant
            i <= v@.len(),
            v@ == s@,
            out@ == escaped(s@.subrange(0, i as int)),
        decreases v@.len() - i,
    {
        proof {
            assert(s@.subrange(0, i as int + 1) =~= s@.subrange(0, i as int).push(s@[i as int]));
            lemma_escaped_push(s@.subrange(0, i as int), s@[i as int]);
        }
        let c = v[i];
        if c == '&' {
            out.append("&amp;");
        } else if c == '<' {
            out.append("&lt;");
        } else if c == '>' {
            out.append("&gt;");
        } else if c == '"' {
            out.append("&quot;");
        } else {
            let mut one: Vec<char> = Vec::new();
            one.push(c);
            let cs = string_of(&one);
            out.append(cs.as_str());
            assert(one@ =~= seq![c]);
        }
        assert(out@ =~= escaped(s@.subrange(0, i as int + 1)));
        i = i + 1;
    }
    assert(s@.subrange(0, s@.len() as int) =~= s@);
    out
}

/// A path separator: either direction.
pub open spec fn is_sep(c: char) -> bool {
    c == '/' || c == '\\'
}

/// The largest index holding a non-separator character, or -1.
pub open spec fn last_nonsep(s: Seq<char>) -> int
    decreases s.len(),
{
    if s.len() == 0 {
        -1
    } else if !is_sep(s[s.len() - 1]) {
        s.len() - 1
    } else {
        last_nonsep(s.subrange(0, s.len() - 1))
    }
}

/// The start of the non-separator run that ends just before `i`.
pub open spec fn run_start(s: Seq<char>, i: int) -> int
    decreases i,
{
    if i <= 0 {
        0
    } else if is_sep(s[i - 1]) {
        i
    } else {
        run_start(s, i - 1)
    }
}

/// The last non-empty path component, or "unknown" when the path has
/// none.
pub open spec fn spec_project_name(s: Seq<char>) -> Seq<char> {
    let e = last_nonsep(s);
    if e == -1 {
        "unknown"@
    } else {
        s.subrange(run_start(s, e + 1), e + 1)
    }
}

/// Extracts the project name from a directory path: its last
/// non-empty component, under either separator convention.
pub fn extract_project_name(path: &str) -> (r: String)
    ensures
        r@ == spec_project_name(path@),
{
    let v = chars_of(path);
    let n = v.len();
    let mut e: usize = n;
    proof {
        assert(path@.subrange(0, n as int) =~= path@);
    }
    loop
        invariant
            0 <= e <= n,
            n == v@.len(),
            v@ == path@,
            last_nonsep(path@) == last_nonsep(path@.subrange(0, e as int)),
        ensures
            0 <= e <= n,
            last_nonsep(path@) == last_nonsep(path@.subrange(0, e as int)),
            e > 0 ==> !is_sep(path@[e - 1]),
            e == 0 ==> last_nonsep(path@) == -1,
        decreases e,
    {
        if e == 0 {
            assert(path@.subrange(0, 0) =~= Seq::<char>::empty());
            break ;
        }
        let c = v[e - 1];
        if !(c == '/' || c == '\\') {
            assert(path@.subrange(0, e as int)[e - 1] == path@[e - 1]);
            break ;
        }
        assert(path@.subrange(0, e as int)[e - 1] == path@[e - 1]);
        assert(path@.subrange(0, e as int).subrange(0, e - 1) =~= path@.subrange(0, e - 1));
        e = e - 1;
    }
    if e == 0 {
        return "unknown".to_owned();
    }
    proof {
        assert(path@.subrange(0, e as int)[e - 1] == path@[e - 1]);
        assert(last_nonsep(path@.subrange(0, e as int)) == e - 1);
    }
    let mut b: usize = e;
    loop
        invariant
            0 <= b <= e,
            e <= n,
            n == v@.len(),
            v@ == path@,
            run_start(path@, e as int) == run_start(path@, b as int),
        ensures
            0 <= b <= e,
            run_start(path@, e as int) == b,
        decreases b,
    {
        if b == 0 {
            break ;
        }
        let c = v[b - 1];
        if c == '/' || c == '\\' {
            break ;
        }
        b = b - 1;
    }
    let mut w: Vec<char> = Vec::new();
    let mut i: usize = b;
    while i < e
        invariant
            b <= i <= e,
            e <= n,
            n == v@.len(),
            v@ == path@,
            w@ == path@.subrange(b as int, i as int),
        decreases e - i,
    {
        w.push(v[i]);
        assert(w@ =~= path@.subrange(b as int, i + 1));
        i = i + 1;
    }
    string_of(&w)
}

} // verus!
