//! Builds a node/link knowledge graph from a directory of markdown documents.
//!
//! Each document carries an optional front-matter block (title, hierarchical
//! tags, an ignore flag).  Documents become `file` nodes; every tag becomes a
//! chain of hierarchical `topic` nodes linked parent to child, with the
//! document linked to its most specific tag.  The pipeline is a pure fold:
//! scan documents, extract front matter, normalize tags, resolve each tag to
//! an absolute topic path, assemble a deduplicated graph, and render it as
//! pretty-printed JSON.

pub mod document;
pub mod dot;
pub mod front_matter;
pub mod graph;
pub mod laws;
pub mod resolver;
pub mod scanner;
pub mod serializer;
pub mod tags;
pub mod text;

use vstd::prelude::*;
use crate::document::DocumentMeta;
use crate::graph::{build_graph, build_spec};
use crate::serializer::{serialize, serialize_spec};

verus! {

/// The whole compute pipeline after scanning: resolve every tag over the
/// document list, assemble the deduplicated graph, and render it as the
/// fixed JSON document.
pub fn analyze_documents(docs: Vec<DocumentMeta>) -> (r: String)
    ensures
        r@ == serialize_spec(build_spec(docs.deep_view())),
{
    let g = build_graph(docs);
    serialize(&g)
}

} // verus!
