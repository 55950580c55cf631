//! Front-matter extraction: the leading metadata block of a document.
//!
//! A block is delimited by a `---` line at the very start of the document and
//! a second `---` line further down.  Between the two, lines of the form
//! `key: value` are read; the recognized keys are `title`, `tags` and
//! `ignore`, any other line is skipped.  A `tags` value is an inline list
//! `[a, b]`, a block sequence of `- item` lines after a bare `tags:`, or a
//! single scalar string (items trimmed, surrounding quotes dropped);
//! `ignore` is true exactly when its value is `true`.  A
//! document with no block, or with an unterminated block, yields the
//! all-default record — extraction never fails.

use vstd::prelude::*;
use crate::text::{
    first_index_of, lemma_first_index_of, split_keep, split_keep_exec, trim, trim_chars,
    sub_chars, chars_eq_str, to_chars, chars_to_string, find_char,
};

verus! {

/// The raw tag value a front-matter block carries: absent, one
/// whitespace-separated string, or a list of individual strings.
#[derive(Debug, Clone)]
pub enum RawTags {
    Absent,
    Single(String),
    Many(Vec<String>),
}

pub enum RawTagsView {
    Absent,
    Single(Seq<char>),
    Many(Seq<Seq<char>>),
}

impl View for RawTags {
    type V = RawTagsView;

    open spec fn view(&self) -> RawTagsView {
        match self {
            RawTags::Absent => RawTagsView::Absent,
            RawTags::Single(s) => RawTagsView::Single(s@),
            RawTags::Many(v) => RawTagsView::Many(v.deep_view()),
        }
    }
}

/// The typed record a document's metadata block parses to.
#[derive(Debug, Clone)]
pub struct FrontMatter {
    pub title: Option<String>,
    pub tags: RawTags,
    pub ignore: bool,
}

pub struct FrontMatterView {
    pub title: Option<Seq<char>>,
    pub tags: RawTagsView,
    pub ignore: bool,
}

impl View for FrontMatter {
    type V = FrontMatterView;

    open spec fn view(&self) -> FrontMatterView {
        FrontMatterView {
            title: match self.title {
                Option::Some(t) => Option::Some(t@),
                Option::None => Option::None,
            },
            tags: self.tags@,
            ignore: self.ignore,
        }
    }
}

/// The all-default record: what absent or malformed metadata yields.
pub open spec fn fm_default() -> FrontMatterView {
    FrontMatterView { title: Option::None, tags: RawTagsView::Absent, ignore: false }
}

/// Each line stripped of a trailing `\r`.
pub open spec fn strip_all(ls: Seq<Seq<char>>) -> Seq<Seq<char>> {
    Seq::new(ls.len(), |k: int| strip_cr(ls[k]))
}

/// Each inline-list item trimmed and unquoted.
pub open spec fn clean_items(ls: Seq<Seq<char>>) -> Seq<Seq<char>> {
    Seq::new(ls.len(), |k: int| unquote(trim(ls[k])))
}

/// A line stripped of a trailing `\r`.
pub open spec fn strip_cr(l: Seq<char>) -> Seq<char> {
    if l.len() > 0 && l[l.len() - 1] == '\r' {
        l.take(l.len() - 1)
    } else {
        l
    }
}

/// The lines of a text: split on `\n`, a trailing `\r` dropped from each.
pub open spec fn lines_of(s: Seq<char>) -> Seq<Seq<char>> {
    strip_all(split_keep(s, '\n'))
}

/// Surrounding double or single quotes dropped, when both ends carry the
/// same quote.
pub open spec fn unquote(v: Seq<char>) -> Seq<char> {
    if v.len() >= 2 && ((v[0] == '"' && v[v.len() - 1] == '"') || (v[0] == '\'' && v[v.len() - 1]
        == '\'')) {
        v.subrange(1, v.len() - 1)
    } else {
        v
    }
}

/// How a `tags` value reads: an inline `[..]` list of cleaned items, an
/// empty value as absent, anything else as one scalar string.
pub open spec fn parse_tags_value(v: Seq<char>) -> RawTagsView {
    if v.len() == 0 {
        RawTagsView::Absent
    } else if v[0] == '[' && v[v.len() - 1] == ']' {
        RawTagsView::Many(clean_items(split_keep(v.subrange(1, v.len() - 1), ',')))
    } else {
        RawTagsView::Single(unquote(v))
    }
}

/// The index of the closing `---` line at or after `i`, or `-1`.
pub open spec fn find_close(ls: Seq<Seq<char>>, i: int) -> int
    decreases ls.len() - i,
{
    if i < 0 || i >= ls.len() {
        -1
    } else if ls[i] == "---"@ {
        i
    } else {
        find_close(ls, i + 1)
    }
}

/// A block-sequence item appended to a list-valued tag field; any other
/// shape is left alone.
pub open spec fn push_tag_item(t: RawTagsView, item: Seq<char>) -> RawTagsView {
    match t {
        RawTagsView::Many(items) => RawTagsView::Many(items.push(item)),
        _ => t,
    }
}

/// One pass over the lines of the block, folding each recognized
/// `key: value` line into the record.  A bare `tags:` line opens a block
/// sequence: each immediately following `- item` line contributes one item,
/// trimmed and unquoted.
pub open spec fn parse_fields(ls: Seq<Seq<char>>, i: int, end: int, acc: FrontMatterView, in_tags: bool) -> FrontMatterView
    decreases end - i,
{
    if i < 0 || i >= end || end > ls.len() {
        acc
    } else {
        let line = ls[i];
        let t = trim(line);
        if in_tags && t.len() >= 1 && t[0] == '-' {
            let item = unquote(trim(t.skip(1)));
            parse_fields(
                ls,
                i + 1,
                end,
                FrontMatterView { tags: push_tag_item(acc.tags, item), ..acc },
                true,
            )
        } else {
            let ci = first_index_of(line, ':');
            if ci < 0 {
                parse_fields(ls, i + 1, end, acc, false)
            } else {
                let key = trim(line.take(ci));
                let val = trim(line.skip(ci + 1));
                if key == "title"@ {
                    parse_fields(
                        ls,
                        i + 1,
                        end,
                        FrontMatterView { title: Option::Some(unquote(val)), ..acc },
                        false,
                    )
                } else if key == "tags"@ {
                    if val.len() == 0 {
                        parse_fields(
                            ls,
                            i + 1,
                            end,
                            FrontMatterView { tags: RawTagsView::Many(Seq::empty()), ..acc },
                            true,
                        )
                    } else {
                        parse_fields(
                            ls,
                            i + 1,
                            end,
                            FrontMatterView { tags: parse_tags_value(val), ..acc },
                            false,
                        )
                    }
                } else if key == "ignore"@ {
                    parse_fields(
                        ls,
                        i + 1,
                        end,
                        FrontMatterView { ignore: val == "true"@, ..acc },
                        false,
                    )
                } else {
                    parse_fields(ls, i + 1, end, acc, false)
                }
            }
        }
    }
}

/// What any document text extracts to: the parsed block between the two
/// `---` lines, or the all-default record when no such block exists.
pub open spec fn extract_spec(s: Seq<char>) -> FrontMatterView {
    let ls = lines_of(s);
    if ls.len() == 0 || ls[0] != "---"@ {
        fm_default()
    } else {
        let close = find_close(ls, 1);
        if close < 0 {
            fm_default()
        } else {
            parse_fields(ls, 1, close, fm_default(), false)
        }
    }
}

fn lines_exec(v: &Vec<char>) -> (r: Vec<Vec<char>>)
    ensures
        r.deep_view() == lines_of(v@),
{
    let raw = split_keep_exec(v, '\n');
    let mut r: Vec<Vec<char>> = Vec::new();
    let mut i: usize = 0;
    while i < raw.len()
        invariant
            i <= raw.len(),
            raw.deep_view() == split_keep(v@, '\n'),
            r.deep_view() =~~= strip_all(raw.deep_view().take(i as int)),
        decreases raw.len() - i,
    {
        let ghost dv0 = r.deep_view();
        let mut line = sub_chars(&raw[i], 0, raw[i].len());
        proof {
            assert(line@ =~= raw.deep_view()[i as int]);
        }
        if line.len() > 0 && line[line.len() - 1] == '\r' {
            line.pop();
            proof {
                assert(line@ =~= strip_cr(raw.deep_view()[i as int]));
            }
        } else {
            proof {
                assert(line@ == strip_cr(raw.deep_view()[i as int]));
            }
        }
        let ghost lv = line@;
        r.push(line);
        i = i + 1;
        proof {
            let dvn = r.deep_view();
            let tgt = strip_all(raw.deep_view().take(i as int));
            assert(dvn.len() == dv0.len() + 1);
            assert forall|k: int| 0 <= k < dvn.len() implies dvn[k] == tgt[k] by {
                assert(tgt[k] == strip_cr(raw.deep_view().take(i as int)[k]));
                if k < i - 1 {
                    assert(dvn[k] == dv0[k]);
                    assert(dv0[k] == strip_cr(raw.deep_view().take(i as int - 1)[k]));
                    assert(raw.deep_view().take(i as int - 1)[k] == raw.deep_view().take(i as int)[k]);
                } else {
                    assert(dvn[k] =~= lv);
                    assert(raw.deep_view().take(i as int)[k] == raw.deep_view()[k]);
                }
            }
            assert(dvn =~~= tgt);
        }
    }
    proof {
        assert(raw.deep_view().take(raw.deep_view().len() as int) =~= raw.deep_view());
        assert(r.deep_view() =~~= lines_of(v@));
    }
    r
}

fn unquote_exec(v: Vec<char>) -> (r: Vec<char>)
    ensures
        r@ == unquote(v@),
{
    if v.len() >= 2 && ((v[0] == '"' && v[v.len() - 1] == '"') || (v[0] == '\'' && v[v.len() - 1]
        == '\'')) {
        sub_chars(&v, 1, v.len() - 1)
    } else {
        v
    }
}

fn parse_tags_value_exec(v: Vec<char>) -> (r: RawTags)
    ensures
        r@ == parse_tags_value(v@),
{
    if v.len() == 0 {
        RawTags::Absent
    } else if v[0] == '[' && v[v.len() - 1] == ']' {
        let inner = sub_chars(&v, 1, v.len() - 1);
        let raw = split_keep_exec(&inner, ',');
        let mut items: Vec<String> = Vec::new();
        let mut i: usize = 0;
        while i < raw.len()
            invariant
                i <= raw.len(),
                v@.len() >= 2,
                raw.deep_view() == split_keep(inner@, ','),
                inner@ == v@.subrange(1, v@.len() - 1),
                items.deep_view() =~~= clean_items(raw.deep_view().take(i as int)),
            decreases raw.len() - i,
        {
            let ghost dv0 = items.deep_view();
            let item = sub_chars(&raw[i], 0, raw[i].len());
            proof {
                assert(item@ =~= raw.deep_view()[i as int]);
            }
            let cleaned = unquote_exec(trim_chars(&item));
            let ghost cv = cleaned@;
            items.push(chars_to_string(&cleaned));
            i = i + 1;
            proof {
                assert(cv == unquote(trim(raw.deep_view()[i as int - 1])));
                let dvn = items.deep_view();
                let tgt = clean_items(raw.deep_view().take(i as int));
                assert(dvn.len() == dv0.len() + 1);
                assert forall|k: int| 0 <= k < dvn.len() implies dvn[k] == tgt[k] by {
                    assert(tgt[k] == unquote(trim(raw.deep_view().take(i as int)[k])));
                    if k < i - 1 {
                        assert(dvn[k] == dv0[k]);
                        assert(dv0[k] == unquote(trim(raw.deep_view().take(i as int - 1)[k])));
                        assert(raw.deep_view().take(i as int - 1)[k] == raw.deep_view().take(i as int)[k]);
                    } else {
                        assert(dvn[k] =~= cv);
                        assert(raw.deep_view().take(i as int)[k] == raw.deep_view()[k]);
                    }
                }
                assert(dvn =~~= tgt);
            }
        }
        proof {
            assert(raw.deep_view().take(raw.deep_view().len() as int) =~= raw.deep_view());
        }
        RawTags::Many(items)
    } else {
        let cleaned = unquote_exec(v);
        RawTags::Single(chars_to_string(&cleaned))
    }
}

fn parse_fields_exec(ls: &Vec<Vec<char>>, i: usize, end: usize, acc: FrontMatter, in_tags: bool) -> (r: FrontMatter)
    requires
        i <= end <= ls@.len(),
    ensures
        r@ == parse_fields(ls.deep_view(), i as int, end as int, acc@, in_tags),
    decreases end - i,
{
    if i >= end {
        return acc;
    }
    let ghost acc0 = acc@;
    let line = sub_chars(&ls[i], 0, ls[i].len());
    proof {
        assert(line@ =~= ls.deep_view()[i as int]);
    }
    let t = trim_chars(&line);
    if in_tags && t.len() >= 1 && t[0] == '-' {
        let rest = sub_chars(&t, 1, t.len());
        proof {
            assert(rest@ =~= trim(line@).skip(1));
        }
        let item_chars = unquote_exec(trim_chars(&rest));
        let item = chars_to_string(&item_chars);
        let FrontMatter { title, tags, ignore } = acc;
        let tags2 = match tags {
            RawTags::Many(mut items) => {
                let ghost items0 = items.deep_view();
                items.push(item);
                proof {
                    assert(items.deep_view() =~~= items0.push(unquote(trim(trim(line@).skip(1)))));
                }
                RawTags::Many(items)
            },
            other => other,
        };
        let acc2 = FrontMatter { title, tags: tags2, ignore };
        proof {
            assert(acc2@.tags == push_tag_item(acc0.tags, unquote(trim(trim(line@).skip(1)))));
        }
        parse_fields_exec(ls, i + 1, end, acc2, true)
    } else {
        match find_char(&line, ':') {
            Option::Some(ci) => {
                proof {
                    lemma_first_index_of(line@, ':');
                }
                let key = trim_chars(&sub_chars(&line, 0, ci));
                let val = trim_chars(&sub_chars(&line, ci + 1, line.len()));
                proof {
                    assert(line@.subrange(0, ci as int) =~= line@.take(ci as int));
                    assert(line@.subrange(ci as int + 1, line@.len() as int)
                        =~= line@.skip(ci as int + 1));
                }
                if chars_eq_str(&key, "title") {
                    let tq = unquote_exec(val);
                    let acc2 = FrontMatter { title: Option::Some(chars_to_string(&tq)), ..acc };
                    parse_fields_exec(ls, i + 1, end, acc2, false)
                } else if chars_eq_str(&key, "tags") {
                    if val.len() == 0 {
                        let empty_items: Vec<String> = Vec::new();
                        proof {
                            assert(empty_items.deep_view() =~~= Seq::<Seq<char>>::empty());
                        }
                        let acc2 = FrontMatter { tags: RawTags::Many(empty_items), ..acc };
                        parse_fields_exec(ls, i + 1, end, acc2, true)
                    } else {
                        let tv = parse_tags_value_exec(val);
                        let acc2 = FrontMatter { tags: tv, ..acc };
                        parse_fields_exec(ls, i + 1, end, acc2, false)
                    }
                } else if chars_eq_str(&key, "ignore") {
                    let b = chars_eq_str(&val, "true");
                    let acc2 = FrontMatter { ignore: b, ..acc };
                    parse_fields_exec(ls, i + 1, end, acc2, false)
                } else {
                    parse_fields_exec(ls, i + 1, end, acc, false)
                }
            },
            Option::None => parse_fields_exec(ls, i + 1, end, acc, false),
        }
    }
}

/// Parses a document's leading metadata block; absent or malformed metadata
/// yields the all-default record, never an error.
pub fn extract(content: &str) -> (r: FrontMatter)
    ensures
        r@ == extract_spec(content@),
{
    let chars = to_chars(content);
    let ls = lines_exec(&chars);
    if ls.len() == 0 {
        return FrontMatter { title: Option::None, tags: RawTags::Absent, ignore: false };
    }
    let first = sub_chars(&ls[0], 0, ls[0].len());
    proof {
        assert(first@ =~= ls.deep_view()[0]);
    }
    if !chars_eq_str(&first, "---") {
        return FrontMatter { title: Option::None, tags: RawTags::Absent, ignore: false };
    }
    let mut close: usize = 0;
    let mut found: bool = false;
    let mut j: usize = 1;
    while j < ls.len() && !found
        invariant
            1 <= j <= ls@.len(),
            !found ==> find_close(ls.deep_view(), 1) == find_close(ls.deep_view(), j as int),
            found ==> 1 <= close < ls@.len() && find_close(ls.deep_view(), 1) == close as int,
        decreases ls@.len() - j + (if found { 0int } else { 1int }),
    {
        let cand = sub_chars(&ls[j], 0, ls[j].len());
        proof {
            assert(cand@ =~= ls.deep_view()[j as int]);
        }
        if chars_eq_str(&cand, "---") {
            close = j;
            found = true;
        }
        j = j + 1;
    }
    if !found {
        proof {
            assert(find_close(ls.deep_view(), ls.deep_view().len() as int) == -1);
        }
        return FrontMatter { title: Option::None, tags: RawTags::Absent, ignore: false };
    }
    parse_fields_exec(&ls, 1, close, FrontMatter {
        title: Option::None,
        tags: RawTags::Absent,
        ignore: false,
    }, false)
}

} // verus!
