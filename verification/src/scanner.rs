//! Scan-side logic: which files of a walked directory tree are read, the
//! hard cap on collected documents, and the per-file pipeline from raw text
//! to a `DocumentMeta` record.
//!
//! The walk itself is I/O and stays with the caller; the caller offers each
//! encountered path to `should_read` and, for accepted paths, hands the
//! file's text to `accept`.  Gitignore-style exclusion is delegated to the
//! `ignore` crate behind trusted wrappers: a path the compiled matcher
//! ignores is never read.

use vstd::prelude::*;
use vstd::string::*;
use crate::document::{DocumentMeta, DocumentMetaView, create_title, title_spec};
use crate::front_matter::{extract, extract_spec};
use crate::tags::{normalize, normalize_spec};
use crate::text::{after_last, after_last_exec, to_chars};

verus! {

/// The hard cap on documents collected in one scan: a resource-safety
/// policy, not an error.
pub const SCAN_CAP: usize = 50;

#[verifier::external_type_specification]
#[verifier::external_body]
pub struct ExGitignore(ignore::gitignore::Gitignore);

#[verifier::external_type_specification]
#[verifier::external_body]
pub struct ExGitignoreBuilder(ignore::gitignore::GitignoreBuilder);

/// Relies on ignore's `GitignoreBuilder::new`: a fresh builder whose globs
/// are matched relative to the given root directory.
#[verifier::external_body]
fn gitignore_builder_new(root: &str) -> ignore::gitignore::GitignoreBuilder {
    ignore::gitignore::GitignoreBuilder::new(std::path::Path::new(root))
}

/// Relies on ignore's `GitignoreBuilder::add_line`: parses one
/// gitignore-style glob and adds it to the builder; reports whether the
/// line parsed as a glob.
#[verifier::external_body]
fn gitignore_builder_add(b: &mut ignore::gitignore::GitignoreBuilder, pattern: &str) -> bool {
    b.add_line(None, pattern).is_ok()
}

/// Relies on ignore's `GitignoreBuilder::build`: compiles the added globs
/// into a matcher.
#[verifier::external_body]
fn gitignore_build(b: &ignore::gitignore::GitignoreBuilder) -> Option<ignore::gitignore::Gitignore> {
    b.build().ok()
}

/// Relies on ignore's `Gitignore::matched`: whether the path, taken
/// relative to the matcher's root, matches an ignore glob rather than no
/// glob or a whitelist glob.
#[verifier::external_body]
fn gitignore_is_ignored(g: &ignore::gitignore::Gitignore, path: &str) -> bool {
    matches!(g.matched(std::path::Path::new(path), false), ignore::Match::Ignore(_))
}

/// A markdown file path: its file name ends in `.md` with a non-empty stem.
pub open spec fn is_markdown_path(path: Seq<char>) -> bool {
    let name = after_last(path, '/');
    name.len() > 3 && name[name.len() - 3] == '.' && name[name.len() - 2] == 'm' && name[name.len()
        - 1] == 'd'
}

pub fn is_markdown(path: &str) -> (r: bool)
    ensures
        r == is_markdown_path(path@),
{
    let chars = to_chars(path);
    let name = after_last_exec(&chars, '/');
    name.len() > 3 && name[name.len() - 3] == '.' && name[name.len() - 2] == 'm' && name[name.len()
        - 1] == 'd'
}

/// The record one document's path and text scan to: the front matter
/// extracted, the title chosen, the tags normalized.
pub open spec fn doc_of(path: Seq<char>, content: Seq<char>) -> DocumentMetaView {
    let fm = extract_spec(content);
    DocumentMetaView {
        title: title_spec(path, fm.title),
        file_path: path,
        tags: normalize_spec(fm.tags),
        ignore: fm.ignore,
    }
}

/// The collecting half of a directory scan: the caller walks the tree and
/// reads files, the scanner decides eligibility, parses, and enforces the
/// cap.
pub struct Scanner {
    /// The compiled ignore matcher, when any patterns were given.
    pub filter: Option<ignore::gitignore::Gitignore>,
    /// The records collected so far, in scan order.
    pub docs: Vec<DocumentMeta>,
}

impl View for Scanner {
    type V = Seq<DocumentMetaView>;

    open spec fn view(&self) -> Seq<DocumentMetaView> {
        self.docs.deep_view()
    }
}

impl Scanner {
    /// A scanner for one run: with a non-empty pattern list the gitignore
    /// matcher is compiled over the root (a line that does not parse as a
    /// glob is dropped); with an empty list no filter is applied at all.
    pub fn new(root: &str, patterns: &Vec<String>) -> (s: Scanner)
        ensures
            s@.len() == 0,
            patterns@.len() == 0 ==> s.filter is None,
    {
        let filter: Option<ignore::gitignore::Gitignore> = if patterns.len() == 0 {
            Option::None
        } else {
            let mut b = gitignore_builder_new(root);
            let mut i: usize = 0;
            while i < patterns.len()
                decreases patterns.len() - i,
            {
                let _parsed: bool = gitignore_builder_add(&mut b, patterns[i].as_str());
                i = i + 1;
            }
            gitignore_build(&b)
        };
        let s = Scanner { filter, docs: Vec::new() };
        proof {
            assert(s@ =~~= Seq::<DocumentMetaView>::empty());
        }
        s
    }

    /// Whether the caller should read this file: only while the cap is not
    /// reached, only markdown files, and only paths the ignore filter does
    /// not match.  Without a filter the answer is exact.
    pub fn should_read(&self, path: &str) -> (r: bool)
        ensures
            r ==> self@.len() < SCAN_CAP && is_markdown_path(path@),
            self.filter is None ==> r == (self@.len() < SCAN_CAP && is_markdown_path(path@)),
    {
        if self.docs.len() >= SCAN_CAP {
            return false;
        }
        if !is_markdown(path) {
            return false;
        }
        match &self.filter {
            Option::None => true,
            Option::Some(g) => !gitignore_is_ignored(g, path),
        }
    }

    /// Accepts one document's text: under the cap the parsed record is
    /// appended, at the cap nothing changes, so a scan never collects more
    /// than `SCAN_CAP` documents through this method.
    pub fn accept(&mut self, path: &str, content: &str)
        ensures
            old(self)@.len() < SCAN_CAP ==> final(self)@ == old(self)@.push(
                doc_of(path@, content@),
            ),
            old(self)@.len() >= SCAN_CAP ==> final(self)@ == old(self)@,
            final(self).filter == old(self).filter,
    {
        if self.docs.len() >= SCAN_CAP {
            return;
        }
        let fm = extract(content);
        let tags = normalize(&fm.tags);
        let title = create_title(path, fm.title);
        self.docs.push(DocumentMeta {
            title,
            file_path: String::from_str(path),
            tags,
            ignore: fm.ignore,
        });
        proof {
            assert(self@ =~~= old(self)@.push(doc_of(path@, content@)));
        }
    }

    /// The records collected, in scan order.
    pub fn documents(self) -> (r: Vec<DocumentMeta>)
        ensures
            r.deep_view() == self@,
    {
        self.docs
    }
}

} // verus!
