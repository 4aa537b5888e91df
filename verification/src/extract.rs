//! The content extractor: resolves a raw entry's polymorphic message
//! into plain text.  Precedence: bare string, then structured content
//! (a string, or the "text" blocks joined by newlines), then a
//! string-valued "content" member of the entry's open field bag; every
//! other shape yields the empty string.

use vstd::prelude::*;
use crate::json::{JsonField, JsonFieldV, fields_lookup, fields_get, as_str_val, jv_str, jf_view_seq};
use crate::model::{
    ContentBlock, ContentBlockV, ContentType, ContentTypeV, MessageContent, MessageContentV,
    RawEntry, RawEntryV, cb_view_seq, re_view,
};
use crate::text::str_eq;
use vstd::string::StringExecFns;

verus! {

/// The texts of the "text" blocks of a block list, in order.
pub open spec fn text_parts(bs: Seq<ContentBlockV>) -> Seq<Seq<char>>
    decreases bs.len(),
{
    if bs.len() == 0 {
        Seq::empty()
    } else {
        let rest = text_parts(bs.subrange(1, bs.len() as int));
        if bs[0].block_type == "text"@ && bs[0].text is Some {
            seq![bs[0].text->0] + rest
        } else {
            rest
        }
    }
}

/// Parts joined by a newline character.
pub open spec fn join_nl(parts: Seq<Seq<char>>) -> Seq<char>
    decreases parts.len(),
{
    if parts.len() == 0 {
        Seq::empty()
    } else if parts.len() == 1 {
        parts[0]
    } else {
        parts[0] + seq!['\n'] + join_nl(parts.subrange(1, parts.len() as int))
    }
}

/// The string value of the "content" member of an open field bag, or
/// the empty string.
pub open spec fn extra_content(extra: Seq<JsonFieldV>) -> Seq<char> {
    match fields_lookup(extra, "content"@) {
        Some(v) => match jv_str(v) {
            Some(s) => s,
            None => Seq::empty(),
        },
        None => Seq::empty(),
    }
}

/// The plain-text content of a raw entry.
pub open spec fn spec_extract_content(e: RawEntryV) -> Seq<char> {
    match e.message {
        Some(MessageContentV::String(s)) => s,
        Some(MessageContentV::Object(o)) => match o.content {
            Some(ContentTypeV::String(s)) => s,
            Some(ContentTypeV::Blocks(bs)) => join_nl(text_parts(bs)),
            None => extra_content(e.extra),
        },
        None => extra_content(e.extra),
    }
}

/// Appending a block extends the text parts at the back.
proof fn lemma_text_parts_push(bs: Seq<ContentBlockV>, b: ContentBlockV)
    ensures
        text_parts(bs.push(b)) == text_parts(bs) + (if b.block_type == "text"@ && b.text is Some {
            seq![b.text->0]
        } else {
            Seq::<Seq<char>>::empty()
        }),
    decreases bs.len(),
{
    let tail = if b.block_type == "text"@ && b.text is Some {
        seq![b.text->0]
    } else {
        Seq::<Seq<char>>::empty()
    };
    if bs.len() == 0 {
        assert(bs.push(b)[0] == b);
        assert(bs.push(b).subrange(1, 1) =~= Seq::<ContentBlockV>::empty());
        assert(text_parts(Seq::<ContentBlockV>::empty()) =~= Seq::<Seq<char>>::empty());
        assert(bs =~= Seq::<ContentBlockV>::empty());
        assert(text_parts(bs.push(b)) =~= text_parts(bs) + tail);
    } else {
        assert(bs.push(b).subrange(1, bs.len() as int + 1) =~= bs.subrange(1, bs.len() as int).push(b));
        lemma_text_parts_push(bs.subrange(1, bs.len() as int), b);
        assert(bs.push(b)[0] == bs[0]);
        assert(text_parts(bs.push(b)) =~= text_parts(bs) + tail);
    }
}

/// Appending a part extends the joined text at the back.
proof fn lemma_join_nl_push(parts: Seq<Seq<char>>, p: Seq<char>)
    ensures
        join_nl(parts.push(p)) == if parts.len() == 0 {
            p
        } else {
            join_nl(parts) + seq!['\n'] + p
        },
    decreases parts.len(),
{
    if parts.len() == 0 {
        assert(parts.push(p)[0] == p);
    } else {
        assert(parts.push(p)[0] == parts[0]);
        assert(parts.push(p).subrange(1, parts.len() as int + 1) =~= parts.subrange(
            1,
            parts.len() as int,
        ).push(p));
        lemma_join_nl_push(parts.subrange(1, parts.len() as int), p);
        if parts.len() == 1 {
            assert(parts.subrange(1, 1) =~= Seq::<Seq<char>>::empty());
            assert(join_nl(parts.push(p)) =~= join_nl(parts) + seq!['\n'] + p);
        } else {
            assert(join_nl(parts.push(p)) =~= join_nl(parts) + seq!['\n'] + p);
        }
    }
}

/// Joins the texts of the "text" blocks with newlines.
fn blocks_join(bs: &Vec<ContentBlock>) -> (r: String)
    ensures
        r@ == join_nl(text_parts(cb_view_seq(bs@))),
{
    let mut acc = String::new();
    let mut started = false;
    let mut i: usize = 0;
    while i < bs.len()
        invariant
            i <= bs@.len(),
            started == (text_parts(cb_view_seq(bs@).subrange(0, i as int)).len() > 0),
            acc@ == join_nl(text_parts(cb_view_seq(bs@).subrange(0, i as int))),
        decreases bs@.len() - i,
    {
        let ghost prefix = cb_view_seq(bs@).subrange(0, i as int);
        let b = &bs[i];
        proof {
            assert(cb_view_seq(bs@).subrange(0, i + 1) =~= prefix.push(cb_view_seq(bs@)[i as int]));
            lemma_text_parts_push(prefix, cb_view_seq(bs@)[i as int]);
        }
        let is_text = str_eq(b.block_type.as_str(), "text");
        match &b.text {
            Some(t) => {
                if is_text {
                    proof {
                        lemma_join_nl_push(text_parts(prefix), t@);
                    }
                    if started {
                        acc.append("\n");
                        proof {
                            reveal_strlit("\n");
                            assert("\n"@ =~= seq!['\n']);
                        }
                    }
                    acc.append(t.as_str());
                    proof {
                        assert(text_parts(prefix).push(t@) =~= text_parts(prefix) + seq![t@]);
                        assert(text_parts(cb_view_seq(bs@).subrange(0, i + 1)) =~= text_parts(
                            prefix,
                        ).push(t@));
                    }
                    started = true;
                }
            },
            None => {},
        }
        proof {
            if !(cb_view_seq(bs@)[i as int].block_type == "text"@ && cb_view_seq(bs@)[i as int].text
                is Some) {
                assert(text_parts(cb_view_seq(bs@).subrange(0, i + 1)) =~= text_parts(prefix));
            }
        }
        i = i + 1;
    }
    assert(cb_view_seq(bs@).subrange(0, bs@.len() as int) =~= cb_view_seq(bs@));
    acc
}

/// The string value of the "content" member of the open bag, or the
/// empty string.
fn extra_content_exec(extra: &Vec<JsonField>) -> (r: String)
    ensures
        r@ == extra_content(jf_view_seq(extra@)),
{
    match fields_get(extra, "content") {
        Some(v) => match as_str_val(v) {
            Some(s) => s.clone(),
            None => String::new(),
        },
        None => String::new(),
    }
}

/// Resolves a raw entry's message into plain text; every absent or
/// foreign shape degrades to the empty string.
pub fn extract_content(e: &RawEntry) -> (r: String)
    ensures
        r@ == spec_extract_content(re_view(*e)),
{
    match &e.message {
        Some(MessageContent::String(s)) => s.clone(),
        Some(MessageContent::Object(o)) => match &o.content {
            Some(ContentType::String(s)) => s.clone(),
            Some(ContentType::Blocks(bs)) => blocks_join(bs),
            None => extra_content_exec(&e.extra),
        },
        None => extra_content_exec(&e.extra),
    }
}

} // verus!
