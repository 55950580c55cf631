//! Per-document metadata: the record one scanned markdown file yields, and
//! the title synthesis rule for documents whose front matter names none.

use vstd::prelude::*;
use crate::text::{
    after_last, after_last_exec, last_index_of, last_index_of_exec, to_chars, chars_to_string,
    sub_chars,
};

verus! {

/// The metadata of one scanned document, immutable after creation.
#[derive(Debug, Clone)]
pub struct DocumentMeta {
    pub title: String,
    pub file_path: String,
    pub tags: Vec<String>,
    pub ignore: bool,
}

pub struct DocumentMetaView {
    pub title: Seq<char>,
    pub file_path: Seq<char>,
    pub tags: Seq<Seq<char>>,
    pub ignore: bool,
}

impl View for DocumentMeta {
    type V = DocumentMetaView;

    open spec fn view(&self) -> DocumentMetaView {
        DocumentMetaView {
            title: self.title@,
            file_path: self.file_path@,
            tags: self.tags.deep_view(),
            ignore: self.ignore,
        }
    }
}

impl DeepView for DocumentMeta {
    type V = DocumentMetaView;

    open spec fn deep_view(&self) -> DocumentMetaView {
        self.view()
    }
}

/// The file name of a path: everything after the last `/`.
pub open spec fn file_name_of(path: Seq<char>) -> Seq<char> {
    after_last(path, '/')
}

/// The title synthesized from a path alone: the file name with its extension
/// (the part after the last `.`, when that dot is not the first character)
/// dropped; `<unnamed>` when the path yields no file name at all.
pub open spec fn title_from_path(path: Seq<char>) -> Seq<char> {
    let name = file_name_of(path);
    if name.len() == 0 {
        "<unnamed>"@
    } else {
        let d = last_index_of(name, '.');
        if d <= 0 {
            name
        } else {
            name.take(d)
        }
    }
}

/// A document's title: the front-matter title when one is present, else the
/// title synthesized from the path.
pub open spec fn title_spec(path: Seq<char>, front_matter_title: Option<Seq<char>>) -> Seq<char> {
    match front_matter_title {
        Option::Some(t) => t,
        Option::None => title_from_path(path),
    }
}

/// Picks the document's title: the front-matter title when present, else one
/// synthesized from the file name.
pub fn create_title(path: &str, front_matter_title: Option<String>) -> (r: String)
    ensures
        r@ == title_spec(path@, match front_matter_title {
            Option::Some(t) => Option::Some(t@),
            Option::None => Option::<Seq<char>>::None,
        }),
{
    match front_matter_title {
        Option::Some(t) => t,
        Option::None => {
            let chars = to_chars(path);
            let name = after_last_exec(&chars, '/');
            if name.len() == 0 {
                String::from_str("<unnamed>")
            } else {
                proof {
                    crate::text::lemma_after_last_is_skip(name@, '.');
                }
                match last_index_of_exec(&name, '.') {
                    Option::Some(d) if d > 0 => {
                        let stem = sub_chars(&name, 0, d);
                        proof {
                            assert(name@.subrange(0, d as int) =~= name@.take(d as int));
                        }
                        chars_to_string(&stem)
                    },
                    _ => chars_to_string(&name),
                }
            }
        },
    }
}

} // verus!
