//! The library's JSON document model.
//!
//! A `JsonVal` is an ordinary owned tree.  Turning a text into a tree
//! and a tree back into a text is delegated to serde_json behind two
//! trusted wrappers; every structural step above that level (schema
//! decoding, record encoding, lookups) is verified code on this tree.

use vstd::prelude::*;
use crate::text::{lex_le, str_eq};

verus! {

/// One member of a JSON object.
#[derive(Debug, PartialEq)]
pub struct JsonField {
    pub key: String,
    pub val: JsonVal,
}

/// A JSON document.  A number keeps its decimal token: the library
/// never computes with numbers, it only carries them through.
#[derive(Debug, PartialEq)]
pub enum JsonVal {
    Null,
    Bool(bool),
    Num(String),
    Str(String),
    Arr(Vec<JsonVal>),
    Obj(Vec<JsonField>),
}

/// Mathematical image of one object member.
#[verifier::ext_equal]
pub struct JsonFieldV {
    pub key: Seq<char>,
    pub val: JsonValV,
}

/// Mathematical image of a document.
#[verifier::ext_equal]
pub enum JsonValV {
    Null,
    Bool(bool),
    Num(Seq<char>),
    Str(Seq<char>),
    Arr(Seq<JsonValV>),
    Obj(Seq<JsonFieldV>),
}

/// The image of a document value.
pub open spec fn jv_view(t: JsonVal) -> JsonValV
    decreases t,
{
    match t {
        JsonVal::Null => JsonValV::Null,
        JsonVal::Bool(b) => JsonValV::Bool(b),
        JsonVal::Num(s) => JsonValV::Num(s@),
        JsonVal::Str(s) => JsonValV::Str(s@),
        JsonVal::Arr(a) => JsonValV::Arr(jv_view_seq(a@)),
        JsonVal::Obj(fs) => JsonValV::Obj(jf_view_seq(fs@)),
    }
}

/// The image of a sequence of document values, element by element.
pub open spec fn jv_view_seq(a: Seq<JsonVal>) -> Seq<JsonValV>
    decreases a,
{
    if a.len() == 0 {
        Seq::empty()
    } else {
        seq![jv_view(a[0])] + jv_view_seq(a.subrange(1, a.len() as int))
    }
}

/// The image of a sequence of object members, member by member.
pub open spec fn jf_view_seq(fs: Seq<JsonField>) -> Seq<JsonFieldV>
    decreases fs,
{
    if fs.len() == 0 {
        Seq::empty()
    } else {
        seq![JsonFieldV { key: fs[0].key@, val: jv_view(fs[0].val) }] + jf_view_seq(
            fs.subrange(1, fs.len() as int),
        )
    }
}

/// The image sequences are pointwise images.
pub proof fn lemma_jv_view_seq(a: Seq<JsonVal>)
    ensures
        jv_view_seq(a).len() == a.len(),
        forall|i: int|
            #![trigger jv_view_seq(a)[i]]
            #![trigger a[i]]
            0 <= i < a.len() ==> jv_view_seq(a)[i] == jv_view(a[i]),
    decreases a.len(),
{
    if a.len() > 0 {
        lemma_jv_view_seq(a.subrange(1, a.len() as int));
        assert forall|i: int|
            #![trigger jv_view_seq(a)[i]]
            #![trigger a[i]]
            0 <= i < a.len() implies jv_view_seq(a)[i] == jv_view(a[i]) by {
            if i > 0 {
                assert(a.subrange(1, a.len() as int)[i - 1] == a[i]);
            }
        }
    }
}

/// The member image sequences are pointwise images.
pub proof fn lemma_jf_view_seq(fs: Seq<JsonField>)
    ensures
        jf_view_seq(fs).len() == fs.len(),
        forall|i: int|
            #![trigger jf_view_seq(fs)[i]]
            #![trigger fs[i]]
            0 <= i < fs.len() ==> jf_view_seq(fs)[i] == (JsonFieldV {
                key: fs[i].key@,
                val: jv_view(fs[i].val),
            }),
    decreases fs.len(),
{
    if fs.len() > 0 {
        lemma_jf_view_seq(fs.subrange(1, fs.len() as int));
        assert forall|i: int|
            #![trigger jf_view_seq(fs)[i]]
            #![trigger fs[i]]
            0 <= i < fs.len() implies jf_view_seq(fs)[i] == (JsonFieldV {
            key: fs[i].key@,
            val: jv_view(fs[i].val),
        }) by {
            if i > 0 {
                assert(fs.subrange(1, fs.len() as int)[i - 1] == fs[i]);
            }
        }
    }
}

/// Strict lexicographic order on key sequences.
pub open spec fn lex_lt(a: Seq<char>, b: Seq<char>) -> bool {
    lex_le(a, b) && a != b
}

/// A document that survives a render/parse round trip unchanged: it
/// holds no number nodes, and every object lists its keys in strictly
/// increasing order (so keys are unique).
pub open spec fn canonical(t: JsonValV) -> bool
    decreases t,
{
    match t {
        JsonValV::Null => true,
        JsonValV::Bool(_) => true,
        JsonValV::Num(_) => false,
        JsonValV::Str(_) => true,
        JsonValV::Arr(a) => forall|i: int| 0 <= i < a.len() ==> canonical(#[trigger] a[i]),
        JsonValV::Obj(fs) => (forall|i: int|
            0 <= i < fs.len() ==> canonical(#[trigger] fs[i].val)) && (forall|i: int|
            0 <= i < fs.len() - 1 ==> lex_lt(#[trigger] fs[i].key, fs[i + 1].key)),
    }
}

/// Declares serde_json's document type so that the conversion helpers
/// below may mention it; the library holds no value of it.
#[verifier::external_type_specification]
#[verifier::external_body]
pub struct ExValue(serde_json::Value);

/// Nesting depth of a document, counted in containers: a scalar is
/// flat, an array or object is one deeper than its deepest member.
pub open spec fn depth(t: JsonValV) -> int
    decreases t,
{
    match t {
        JsonValV::Null => 0,
        JsonValV::Bool(_) => 0,
        JsonValV::Num(_) => 0,
        JsonValV::Str(_) => 0,
        JsonValV::Arr(a) => 1 + seq_depth(a),
        JsonValV::Obj(fs) => 1 + fields_depth(fs),
    }
}

/// The depth of the deepest document in a list.
pub open spec fn seq_depth(a: Seq<JsonValV>) -> int
    decreases a,
{
    if a.len() == 0 {
        0
    } else {
        let rest = seq_depth(a.subrange(1, a.len() as int));
        if depth(a[0]) >= rest {
            depth(a[0])
        } else {
            rest
        }
    }
}

/// The depth of the deepest member value in an object.
pub open spec fn fields_depth(fs: Seq<JsonFieldV>) -> int
    decreases fs,
{
    if fs.len() == 0 {
        0
    } else {
        let rest = fields_depth(fs.subrange(1, fs.len() as int));
        if depth(fs[0].val) >= rest {
            depth(fs[0].val)
        } else {
            rest
        }
    }
}

/// What `serde_json::from_str::<Value>` yields on a text, carried over
/// into the library's tree: `None` on a refused text, otherwise the
/// parsed document.  Parsing is a function of the text alone.
pub uninterp spec fn parsed_json(s: Seq<char>) -> Option<JsonValV>;

/// Converts a parsed `serde_json::Value` into the library's tree,
/// variant by variant; object members keep the order in which the
/// map hands them out.
#[verifier::external_body]
fn tree_of_value(v: serde_json::Value) -> JsonVal {
    match v {
        serde_json::Value::Null => JsonVal::Null,
        serde_json::Value::Bool(b) => JsonVal::Bool(b),
        serde_json::Value::Number(n) => JsonVal::Num(n.to_string()),
        serde_json::Value::String(s) => JsonVal::Str(s),
        serde_json::Value::Array(a) => JsonVal::Arr(a.into_iter().map(tree_of_value).collect()),
        serde_json::Value::Object(m) => JsonVal::Obj(
            m.into_iter().map(|(k, v)| JsonField { key: k, val: tree_of_value(v) }).collect(),
        ),
    }
}

/// Converts the library's tree back into a `serde_json::Value`,
/// variant by variant, for rendering.
#[verifier::external_body]
fn value_of_tree(t: &JsonVal) -> serde_json::Value {
    match t {
        JsonVal::Null => serde_json::Value::Null,
        JsonVal::Bool(b) => serde_json::Value::Bool(*b),
        JsonVal::Num(s) => serde_json::from_str(s).unwrap_or(serde_json::Value::Null),
        JsonVal::Str(s) => serde_json::Value::String(s.clone()),
        JsonVal::Arr(a) => serde_json::Value::Array(a.iter().map(value_of_tree).collect()),
        JsonVal::Obj(fs) => serde_json::Value::Object(
            fs.iter().map(|f| (f.key.clone(), value_of_tree(&f.val))).collect(),
        ),
    }
}

/// Relies on `serde_json::from_str::<Value>`: decodes one JSON text
/// into a document, or refuses it; the outcome depends on the text
/// alone.
#[verifier::external_body]
pub fn parse_json(s: &str) -> (r: Option<JsonVal>)
    ensures
        match r {
            Some(t) => parsed_json(s@) == Some(jv_view(t)),
            None => parsed_json(s@) is None,
        },
{
    match serde_json::from_str::<serde_json::Value>(s) {
        Ok(v) => Some(tree_of_value(v)),
        Err(_) => None,
    }
}

/// Relies on `serde_json::to_string_pretty`: rendering a canonical
/// document (no number nodes, object keys strictly sorted) gives a
/// text that parses back to the same document.  The parser refuses
/// container nesting of 128 or more while the writer has no such
/// limit, so only documents below that depth may be rendered under
/// this contract.
#[verifier::external_body]
pub fn render_json(t: &JsonVal) -> (r: String)
    requires
        canonical(jv_view(*t)),
        depth(jv_view(*t)) < 128,
    ensures
        parsed_json(r@) == Some(jv_view(*t)),
{
    serde_json::to_string_pretty(&value_of_tree(t)).unwrap_or(String::new())
}

/// First member of `fs` whose key is `key`, if any.
pub open spec fn fields_lookup(fs: Seq<JsonFieldV>, key: Seq<char>) -> Option<JsonValV>
    decreases fs.len(),
{
    if fs.len() == 0 {
        None
    } else if fs[0].key == key {
        Some(fs[0].val)
    } else {
        fields_lookup(fs.subrange(1, fs.len() as int), key)
    }
}

/// Member `key` of an object document, if the document is an object
/// and has that member.
pub open spec fn obj_lookup(t: JsonValV, key: Seq<char>) -> Option<JsonValV> {
    match t {
        JsonValV::Obj(fs) => fields_lookup(fs, key),
        _ => None,
    }
}

/// The characters of a string document.
pub open spec fn jv_str(t: JsonValV) -> Option<Seq<char>> {
    match t {
        JsonValV::Str(s) => Some(s),
        _ => None,
    }
}

/// Looks a key up in a list of object members, first match wins.
pub fn fields_get<'a>(fs: &'a Vec<JsonField>, key: &str) -> (r: Option<&'a JsonVal>)
    ensures
        match r {
            Some(v) => fields_lookup(jf_view_seq(fs@), key@) == Some(jv_view(*v)),
            None => fields_lookup(jf_view_seq(fs@), key@) is None,
        },
{
    let ghost fsv = jf_view_seq(fs@);
    proof {
        lemma_jf_view_seq(fs@);
        assert(fsv.subrange(0, fsv.len() as int) =~= fsv);
    }
    let mut i: usize = 0;
    while i < fs.len()
        invariant
            i <= fs@.len(),
            fsv == jf_view_seq(fs@),
            fsv.len() == fs@.len(),
            forall|k: int|
                0 <= k < fs@.len() ==> #[trigger] fsv[k] == (JsonFieldV {
                    key: fs@[k].key@,
                    val: jv_view(fs@[k].val),
                }),
            fields_lookup(fsv, key@) == fields_lookup(
                fsv.subrange(i as int, fsv.len() as int),
                key@,
            ),
        decreases fs@.len() - i,
    {
        let f = &fs[i];
        let ghost rest = fsv.subrange(i as int, fsv.len() as int);
        assert(rest[0] == fsv[i as int]);
        if str_eq(f.key.as_str(), key) {
            return Some(&f.val);
        }
        assert(rest.subrange(1, rest.len() as int) =~= fsv.subrange(i + 1, fsv.len() as int));
        i = i + 1;
    }
    assert(fsv.subrange(fsv.len() as int, fsv.len() as int).len() == 0);
    None
}

/// Looks a member up in an object document.
pub fn obj_get<'a>(t: &'a JsonVal, key: &str) -> (r: Option<&'a JsonVal>)
    ensures
        match r {
            Some(v) => obj_lookup(jv_view(*t), key@) == Some(jv_view(*v)),
            None => obj_lookup(jv_view(*t), key@) is None,
        },
{
    match t {
        JsonVal::Obj(fs) => fields_get(fs, key),
        _ => None,
    }
}

/// The string inside a string document, if it is one.
pub fn as_str_val<'a>(t: &'a JsonVal) -> (r: Option<&'a String>)
    ensures
        match r {
            Some(s) => jv_str(jv_view(*t)) == Some(s@),
            None => jv_str(jv_view(*t)) is None,
        },
{
    match t {
        JsonVal::Str(s) => Some(s),
        _ => None,
    }
}

impl Clone for JsonField {
    /// Deep copy; the image is unchanged.
    #[verifier::loop_isolation(false)]
    fn clone(&self) -> (r: Self)
        ensures
            r.key@ == self.key@ && jv_view(r.val) == jv_view(self.val),
        decreases *self,
    {
        JsonField { key: self.key.clone(), val: self.val.clone() }
    }
}

impl Clone for JsonVal {
    /// Deep copy; the image is unchanged.
    #[verifier::loop_isolation(false)]
    fn clone(&self) -> (r: Self)
        ensures
            jv_view(r) == jv_view(*self),
        decreases *self,
    {
        match self {
            JsonVal::Null => JsonVal::Null,
            JsonVal::Bool(b) => JsonVal::Bool(*b),
            JsonVal::Num(s) => JsonVal::Num(s.clone()),
            JsonVal::Str(s) => JsonVal::Str(s.clone()),
            JsonVal::Arr(a) => {
                let mut out: Vec<JsonVal> = Vec::new();
                let mut i: usize = 0;
                while i < a.len()
                    invariant
                        i <= a@.len(),
                        out@.len() == i,
                        forall|k: int|
                            0 <= k < i ==> jv_view(#[trigger] out@[k]) == jv_view(a@[k]),
                    decreases a@.len() - i,
                {
                    out.push(a[i].clone());
                    i = i + 1;
                }
                proof {
                    lemma_jv_view_seq(out@);
                    lemma_jv_view_seq(a@);
                    assert forall|k: int| 0 <= k < a@.len() implies jv_view_seq(out@)[k]
                        == jv_view_seq(a@)[k] by {
                        assert(jv_view(out@[k]) == jv_view(a@[k]));
                    }
                    assert(jv_view_seq(out@) =~= jv_view_seq(a@));
                    assert(*self == JsonVal::Arr(*a));
                }
                let r = JsonVal::Arr(out);
                assert(jv_view(r) == jv_view(*self));
                r
            },
            JsonVal::Obj(fs) => {
                let mut out: Vec<JsonField> = Vec::new();
                let mut i: usize = 0;
                while i < fs.len()
                    invariant
                        i <= fs@.len(),
                        out@.len() == i,
                        forall|k: int|
                            0 <= k < i ==> (#[trigger] out@[k]).key@ == fs@[k].key@ && jv_view(
                                out@[k].val,
                            ) == jv_view(fs@[k].val),
                    decreases fs@.len() - i,
                {
                    out.push(fs[i].clone());
                    i = i + 1;
                }
                proof {
                    lemma_jf_view_seq(out@);
                    lemma_jf_view_seq(fs@);
                    assert forall|k: int| 0 <= k < fs@.len() implies jf_view_seq(out@)[k]
                        == jf_view_seq(fs@)[k] by {
                        assert(out@[k].key@ == fs@[k].key@ && jv_view(out@[k].val) == jv_view(
                            fs@[k].val,
                        ));
                    }
                    assert(jf_view_seq(out@) =~= jf_view_seq(fs@));
                    assert(*self == JsonVal::Obj(*fs));
                }
                let r = JsonVal::Obj(out);
                assert(jv_view(r) == jv_view(*self));
                r
            },
        }
    }
}

} // verus!
