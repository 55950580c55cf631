//! Tag normalization: raw front-matter tag values become a canonical ordered
//! list of lowercase, trimmed, non-empty tag paths.  A single string is first
//! tokenized on whitespace; a list contributes its items directly.  The `/`
//! hierarchy inside a tag is deliberately left intact here — only the
//! resolver interprets it.

use vstd::prelude::*;
use crate::front_matter::{RawTags, RawTagsView};
use crate::text::{
    lower_of, lowercase, trim, trim_chars, split_ws, split_ws_exec, to_chars, chars_to_string,
};

verus! {

/// The canonical form of one raw tag: trimmed, then lowercased.
pub open spec fn canon_tag(t: Seq<char>) -> Seq<char> {
    lower_of(trim(t))
}

/// The canonical tag list of a sequence of raw items: each item trimmed and
/// lowercased, empty results dropped, order kept.
pub open spec fn norm_list(items: Seq<Seq<char>>) -> Seq<Seq<char>>
    decreases items.len(),
{
    if items.len() == 0 {
        Seq::empty()
    } else {
        let t = canon_tag(items[0]);
        let rest = norm_list(items.skip(1));
        if t.len() > 0 {
            seq![t] + rest
        } else {
            rest
        }
    }
}

/// What a raw tag value normalizes to: nothing when absent, the cleaned
/// whitespace tokens of a single string, the cleaned items of a list.
pub open spec fn normalize_spec(rt: RawTagsView) -> Seq<Seq<char>> {
    match rt {
        RawTagsView::Absent => Seq::empty(),
        RawTagsView::Single(s) => norm_list(split_ws(s)),
        RawTagsView::Many(items) => norm_list(items),
    }
}

fn canon_tag_exec(item: &str) -> (r: String)
    ensures
        r@ == canon_tag(item@),
{
    let ch = to_chars(item);
    let t = trim_chars(&ch);
    let s = chars_to_string(&t);
    lowercase(s.as_str())
}

fn norm_items_chars(toks: &Vec<Vec<char>>) -> (r: Vec<String>)
    ensures
        r.deep_view() == norm_list(toks.deep_view()),
{
    let mut out: Vec<String> = Vec::new();
    let mut i: usize = 0;
    proof {
        assert(toks.deep_view().skip(0) =~= toks.deep_view());
        assert(out.deep_view() =~~= Seq::<Seq<char>>::empty());
        assert(Seq::<Seq<char>>::empty() + norm_list(toks.deep_view())
            =~= norm_list(toks.deep_view()));
    }
    while i < toks.len()
        invariant
            i <= toks.len(),
            norm_list(toks.deep_view()) == out.deep_view() + norm_list(
                toks.deep_view().skip(i as int),
            ),
        decreases toks.len() - i,
    {
        let ghost tdv = toks.deep_view();
        let ghost odv = out.deep_view();
        proof {
            assert(tdv.skip(i as int).skip(1) =~= tdv.skip(i as int + 1));
            assert(tdv.skip(i as int)[0] == tdv[i as int]);
        }
        let piece = chars_to_string(&toks[i]);
        proof {
            assert(piece@ =~= tdv[i as int]);
        }
        let cleaned = canon_tag_exec(piece.as_str());
        if cleaned.unicode_len() > 0 {
            out.push(cleaned);
            proof {
                assert(out.deep_view() =~~= odv.push(canon_tag(tdv[i as int])));
                assert(odv + (seq![canon_tag(tdv[i as int])] + norm_list(tdv.skip(i as int + 1)))
                    =~= out.deep_view() + norm_list(tdv.skip(i as int + 1)));
            }
        }
        i = i + 1;
    }
    proof {
        assert(toks.deep_view().skip(toks.deep_view().len() as int) =~= Seq::<Seq<char>>::empty());
        assert(out.deep_view() + Seq::<Seq<char>>::empty() =~= out.deep_view());
    }
    out
}

fn norm_items_strs(items: &Vec<String>) -> (r: Vec<String>)
    ensures
        r.deep_view() == norm_list(items.deep_view()),
{
    let mut out: Vec<String> = Vec::new();
    let mut i: usize = 0;
    proof {
        assert(items.deep_view().skip(0) =~= items.deep_view());
        assert(out.deep_view() =~~= Seq::<Seq<char>>::empty());
        assert(Seq::<Seq<char>>::empty() + norm_list(items.deep_view())
            =~= norm_list(items.deep_view()));
    }
    while i < items.len()
        invariant
            i <= items.len(),
            norm_list(items.deep_view()) == out.deep_view() + norm_list(
                items.deep_view().skip(i as int),
            ),
        decreases items.len() - i,
    {
        let ghost tdv = items.deep_view();
        let ghost odv = out.deep_view();
        proof {
            assert(tdv.skip(i as int).skip(1) =~= tdv.skip(i as int + 1));
            assert(tdv.skip(i as int)[0] == tdv[i as int]);
        }
        let cleaned = canon_tag_exec(items[i].as_str());
        if cleaned.unicode_len() > 0 {
            out.push(cleaned);
            proof {
                assert(out.deep_view() =~~= odv.push(canon_tag(tdv[i as int])));
                assert(odv + (seq![canon_tag(tdv[i as int])] + norm_list(tdv.skip(i as int + 1)))
                    =~= out.deep_view() + norm_list(tdv.skip(i as int + 1)));
            }
        }
        i = i + 1;
    }
    proof {
        assert(items.deep_view().skip(items.deep_view().len() as int)
            =~= Seq::<Seq<char>>::empty());
        assert(out.deep_view() + Seq::<Seq<char>>::empty() =~= out.deep_view());
    }
    out
}

/// Turns a raw tag value into the canonical ordered list of lowercase,
/// trimmed, non-empty tag paths.
pub fn normalize(tags: &RawTags) -> (r: Vec<String>)
    ensures
        r.deep_view() == normalize_spec(tags@),
{
    match tags {
        RawTags::Absent => {
            let out: Vec<String> = Vec::new();
            proof {
                assert(out.deep_view() =~~= Seq::<Seq<char>>::empty());
            }
            out
        },
        RawTags::Single(s) => {
            let ch = to_chars(s.as_str());
            let toks = split_ws_exec(&ch);
            norm_items_chars(&toks)
        },
        RawTags::Many(items) => norm_items_strs(items),
    }
}

} // verus!
