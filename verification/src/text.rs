//! Character-level text primitives: whitespace tests, ASCII case
//! folding, substring search, lexicographic comparison and word
//! counting.  All higher components state their contracts over the
//! spec functions defined here.

use vstd::prelude::*;
use vstd::string::StrSliceExecFns;
use vstd::string::StringExecFns;

verus! {

/// Unicode whitespace (the White_Space set), the class used for word
/// counting, blank-line detection and snippet trimming throughout the
/// library.
pub open spec fn is_space_char(c: char) -> bool {
    let u = c as u32;
    u == 0x20 || (0x9 <= u && u <= 0xd) || u == 0x85 || u == 0xa0 || u == 0x1680 || (0x2000 <= u
        && u <= 0x200a) || u == 0x2028 || u == 0x2029 || u == 0x202f || u == 0x205f || u == 0x3000
}

/// Executable test for `is_space_char`.
pub fn is_space(c: char) -> (r: bool)
    ensures
        r == is_space_char(c),
{
    let u = c as u32;
    u == 0x20 || (0x9 <= u && u <= 0xd) || u == 0x85 || u == 0xa0 || u == 0x1680 || (0x2000 <= u
        && u <= 0x200a) || u == 0x2028 || u == 0x2029 || u == 0x202f || u == 0x205f || u == 0x3000
}

/// ASCII lower-casing of one character.  Folding is ASCII-wide on
/// purpose: the snippet windowing indexes the original text with
/// positions found in the folded text, which is only meaningful under
/// a fold that keeps every character in place; the full Unicode fold
/// can change a text's length.
pub open spec fn lower_char(c: char) -> char {
    if 'A' <= c && c <= 'Z' {
        ((c as u8) + 32) as char
    } else {
        c
    }
}

/// ASCII lower-casing of a character sequence, position by position.
pub open spec fn lower_seq(s: Seq<char>) -> Seq<char> {
    s.map_values(|c: char| lower_char(c))
}

/// Executable ASCII lower-casing of one character.
pub fn to_lower(c: char) -> (r: char)
    ensures
        r == lower_char(c),
{
    let u = c as u32;
    if 65 <= u && u <= 90 {
        ((u + 32) as u8) as char
    } else {
        c
    }
}

/// Collects the characters of a string slice into a vector.
pub fn chars_of(s: &str) -> (r: Vec<char>)
    ensures
        r@ == s@,
{
    let n = s.unicode_len();
    let mut r: Vec<char> = Vec::new();
    let mut i: usize = 0;
    while i < n
        invariant
            i <= n,
            n == s@.len(),
            r@ == s@.subrange(0, i as int),
        decreases n - i,
    {
        let c = s.get_char(i);
        r.push(c);
        assert(r@ =~= s@.subrange(0, i + 1));
        i = i + 1;
    }
    assert(r@ =~= s@);
    r
}

/// Relies on `String::push`: appends one character to the string.
#[verifier::external_body]
fn push_char(s: &mut String, c: char)
    ensures
        final(s)@ == old(s)@.push(c),
{
    s.push(c);
}

/// Builds a `String` from a vector of characters.
pub fn string_of(v: &Vec<char>) -> (r: String)
    ensures
        r@ == v@,
{
    let mut r = String::new();
    let mut i: usize = 0;
    while i < v.len()
        invariant
            i <= v.len(),
            r@ == v@.subrange(0, i as int),
        decreases v.len() - i,
    {
        push_char(&mut r, v[i]);
        assert(r@ =~= v@.subrange(0, i + 1));
        i = i + 1;
    }
    assert(r@ =~= v@);
    r
}

/// ASCII lower-casing of a character vector.
pub fn lower_vec(v: &Vec<char>) -> (r: Vec<char>)
    ensures
        r@ == lower_seq(v@),
{
    let mut r: Vec<char> = Vec::new();
    let mut i: usize = 0;
    while i < v.len()
        invariant
            i <= v.len(),
            r@ == lower_seq(v@.subrange(0, i as int)),
        decreases v.len() - i,
    {
        r.push(to_lower(v[i]));
        assert(r@ =~= lower_seq(v@.subrange(0, i + 1)));
        i = i + 1;
    }
    assert(r@ =~= lower_seq(v@));
    r
}

/// The query `q` occurs in `s` starting at position `i`.
pub open spec fn match_at(s: Seq<char>, q: Seq<char>, i: int) -> bool {
    0 <= i && i + q.len() <= s.len() && s.subrange(i, i + q.len()) == q
}

/// The query `q` occurs somewhere in `s`.
pub open spec fn contains_seq(s: Seq<char>, q: Seq<char>) -> bool {
    exists|i: int| match_at(s, q, i)
}

/// Tests whether `q` occurs in `s` at position `i`.
fn match_at_exec(s: &Vec<char>, q: &Vec<char>, i: usize) -> (r: bool)
    requires
        i + q@.len() <= s@.len(),
    ensures
        r == match_at(s@, q@, i as int),
{
    let n = s.len();
    let mut j: usize = 0;
    while j < q.len()
        invariant
            j <= q.len(),
            n == s@.len(),
            i + q@.len() <= s@.len(),
            forall|k: int| 0 <= k < j ==> s@[i + k] == q@[k],
        decreases q.len() - j,
    {
        if s[i + j] != q[j] {
            assert(s@.subrange(i as int, i + q@.len())[j as int] != q@[j as int]);
            return false;
        }
        j = j + 1;
    }
    assert(s@.subrange(i as int, i + q@.len()) =~= q@);
    true
}

/// Finds the first occurrence of `q` in `s`, if any.
pub fn find_sub(s: &Vec<char>, q: &Vec<char>) -> (r: Option<usize>)
    ensures
        match r {
            Some(i) => match_at(s@, q@, i as int) && forall|j: int|
                0 <= j < i ==> !match_at(s@, q@, j),
            None => !contains_seq(s@, q@),
        },
{
    if q.len() > s.len() {
        assert(forall|i: int| !match_at(s@, q@, i));
        return None;
    }
    let last = s.len() - q.len();
    let mut i: usize = 0;
    loop
        invariant
            q@.len() <= s@.len(),
            last == s@.len() - q@.len(),
            i <= last,
            forall|j: int| 0 <= j < i ==> !match_at(s@, q@, j),
        decreases last - i,
    {
        if match_at_exec(s, q, i) {
            return Some(i);
        }
        if i == last {
            assert(forall|j: int| j > last ==> !match_at(s@, q@, j));
            return None;
        }
        i = i + 1;
    }
}

/// Tests whether `q` occurs anywhere in `s`.
pub fn contains_sub(s: &Vec<char>, q: &Vec<char>) -> (r: bool)
    ensures
        r == contains_seq(s@, q@),
{
    match find_sub(s, q) {
        Some(_) => true,
        None => false,
    }
}

/// Lexicographic order on character sequences; agrees with the byte
/// order of the UTF-8 encodings of the two strings.
pub open spec fn lex_le(a: Seq<char>, b: Seq<char>) -> bool
    decreases a.len(),
{
    if a.len() == 0 {
        true
    } else if b.len() == 0 {
        false
    } else if a[0] != b[0] {
        (a[0] as u32) < (b[0] as u32)
    } else {
        lex_le(a.drop_first(), b.drop_first())
    }
}

/// Executable lexicographic comparison of two strings.
pub fn str_le(a: &str, b: &str) -> (r: bool)
    ensures
        r == lex_le(a@, b@),
{
    let av = chars_of(a);
    let bv = chars_of(b);
    let mut i: usize = 0;
    assert(a@.skip(0) =~= a@);
    assert(b@.skip(0) =~= b@);
    loop
        invariant
            av@ == a@,
            bv@ == b@,
            i <= a@.len(),
            i <= b@.len(),
            a@.subrange(0, i as int) =~= b@.subrange(0, i as int),
            lex_le(a@, b@) == lex_le(a@.skip(i as int), b@.skip(i as int)),
        decreases a@.len() - i,
    {
        if i >= av.len() {
            assert(a@.skip(i as int).len() == 0);
            return true;
        }
        if i >= bv.len() {
            assert(b@.skip(i as int).len() == 0);
            assert(a@.skip(i as int).len() > 0);
            return false;
        }
        let ca = av[i];
        let cb = bv[i];
        assert(a@.skip(i as int)[0] == a@[i as int]);
        assert(b@.skip(i as int)[0] == b@[i as int]);
        if ca != cb {
            assert(lex_le(a@.skip(i as int), b@.skip(i as int)) == ((ca as u32) < (cb as u32)));
            return (ca as u32) < (cb as u32);
        }
        assert(a@.skip(i as int).drop_first() =~= a@.skip(i + 1));
        assert(b@.skip(i as int).drop_first() =~= b@.skip(i + 1));
        assert(a@.subrange(0, i + 1) =~= b@.subrange(0, i + 1));
        i = i + 1;
    }
}

/// Number of whitespace-delimited words in `s`: the number of
/// positions that start a maximal run of non-space characters.
pub open spec fn word_count(s: Seq<char>) -> nat
    decreases s.len(),
{
    if s.len() == 0 {
        0
    } else {
        word_count(s.drop_last()) + if !is_space_char(s.last()) && (s.len() == 1
            || is_space_char(s[s.len() - 2])) {
            1nat
        } else {
            0nat
        }
    }
}

/// Counts whitespace-delimited words.
pub fn count_words_vec(v: &Vec<char>) -> (r: usize)
    ensures
        r == word_count(v@),
{
    let mut count: usize = 0;
    let mut i: usize = 0;
    while i < v.len()
        invariant
            i <= v.len(),
            count == word_count(v@.subrange(0, i as int)),
            count <= i,
        decreases v.len() - i,
    {
        let starts = !is_space(v[i]) && (i == 0 || is_space(v[i - 1]));
        assert(v@.subrange(0, i + 1).drop_last() =~= v@.subrange(0, i as int));
        if starts {
            count = count + 1;
        }
        i = i + 1;
    }
    assert(v@.subrange(0, v@.len() as int) =~= v@);
    count
}

/// Tests whether two strings have the same characters.
pub fn str_eq(a: &str, b: &str) -> (r: bool)
    ensures
        r == (a@ == b@),
{
    let av = chars_of(a);
    let bv = chars_of(b);
    if av.len() != bv.len() {
        return false;
    }
    let mut i: usize = 0;
    while i < av.len()
        invariant
            av@ == a@,
            bv@ == b@,
            a@.len() == b@.len(),
            i <= a@.len(),
            forall|k: int| 0 <= k < i ==> a@[k] == b@[k],
        decreases a@.len() - i,
    {
        if av[i] != bv[i] {
            return false;
        }
        i = i + 1;
    }
    assert(a@ =~= b@);
    true
}

/// `p` is a prefix of `s`.
pub open spec fn has_prefix(s: Seq<char>, p: Seq<char>) -> bool {
    p.len() <= s.len() && s.subrange(0, p.len() as int) == p
}

/// Tests whether `p` is a prefix of `s`.
pub fn starts_with(s: &Vec<char>, p: &Vec<char>) -> (r: bool)
    ensures
        r == has_prefix(s@, p@),
{
    if p.len() > s.len() {
        return false;
    }
    match_at_exec(s, p, 0)
}


/// The lexicographic order is total.
pub proof fn lemma_lex_le_total(a: Seq<char>, b: Seq<char>)
    ensures
        lex_le(a, b) || lex_le(b, a),
    decreases a.len(),
{
    if a.len() == 0 {
        assert(lex_le(a, b));
    } else if b.len() == 0 {
        assert(lex_le(b, a));
    } else if a[0] != b[0] {
        vstd::utf8::char_u32_cast(a[0], a[0] as u32);
        vstd::utf8::char_u32_cast(b[0], b[0] as u32);
        assert((a[0] as u32) != (b[0] as u32));
        assert(lex_le(a, b) == ((a[0] as u32) < (b[0] as u32)));
        assert(lex_le(b, a) == ((b[0] as u32) < (a[0] as u32)));
    } else {
        lemma_lex_le_total(a.drop_first(), b.drop_first());
        assert(lex_le(a, b) == lex_le(a.drop_first(), b.drop_first()));
        assert(lex_le(b, a) == lex_le(b.drop_first(), a.drop_first()));
    }
}

/// The lexicographic order is transitive.
pub proof fn lemma_lex_le_trans(a: Seq<char>, b: Seq<char>, c: Seq<char>)
    requires
        lex_le(a, b),
        lex_le(b, c),
    ensures
        lex_le(a, c),
    decreases a.len(),
{
    if a.len() == 0 {
        assert(lex_le(a, c));
    } else {
        assert(b.len() > 0);
        assert(c.len() > 0);
        if a[0] == b[0] && b[0] == c[0] {
            assert(lex_le(a.drop_first(), b.drop_first()));
            assert(lex_le(b.drop_first(), c.drop_first()));
            lemma_lex_le_trans(a.drop_first(), b.drop_first(), c.drop_first());
            assert(lex_le(a, c) == lex_le(a.drop_first(), c.drop_first()));
        } else {
            assert(lex_le(a, c));
        }
    }
}
} // verus!
