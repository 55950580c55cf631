//! Graph assembly: documents and resolved tag paths become a deduplicated
//! set of nodes and links.
//!
//! Every non-ignored document contributes a `file` node keyed by its path
//! and, per tag, one association link to the tag's full resolved path.
//! Every tag of every document — ignored or not — contributes the whole
//! ancestor chain of its resolved path: a `topic` node per prefix level and
//! a structural link between each adjacent pair.  All insertions are
//! idempotent over full value equality, so the node and link collections
//! behave as sets.

use vstd::prelude::*;
use crate::document::{DocumentMeta, DocumentMetaView};
use crate::resolver::{ResolvedTag, ResolvedTagView, resolve, resolve_spec, lookup, lookup_path};
use crate::text::{segments, segments_exec, path_of, path_range, to_chars, chars_to_string};

verus! {

/// The weight of a hierarchical topic-to-topic link.
pub const STRUCTURAL_WEIGHT: u32 = 5;

/// The weight of a document-to-topic association link.
pub const ASSOCIATION_WEIGHT: u32 = 2;

#[derive(Debug, Clone, Copy, PartialEq, Eq, Hash, Structural)]
pub enum NodeKind {
    File,
    Topic,
}

/// A graph vertex: a document (`File`) or a tag level (`Topic`), keyed for
/// deduplication by the whole `(id, title, kind)` value.
#[derive(Debug, Clone, PartialEq, Eq, Hash)]
pub struct Node {
    pub id: String,
    pub title: String,
    pub kind: NodeKind,
}

pub struct NodeView {
    pub id: Seq<char>,
    pub title: Seq<char>,
    pub kind: NodeKind,
}

impl View for Node {
    type V = NodeView;

    open spec fn view(&self) -> NodeView {
        NodeView { id: self.id@, title: self.title@, kind: self.kind }
    }
}

impl DeepView for Node {
    type V = NodeView;

    open spec fn deep_view(&self) -> NodeView {
        self.view()
    }
}

/// A graph edge with its strength, keyed for deduplication by the whole
/// `(source, target, value)` value.
#[derive(Debug, Clone, PartialEq, Eq, Hash)]
pub struct Link {
    pub source: String,
    pub target: String,
    pub value: u32,
}

pub struct LinkView {
    pub source: Seq<char>,
    pub target: Seq<char>,
    pub value: u32,
}

impl View for Link {
    type V = LinkView;

    open spec fn view(&self) -> LinkView {
        LinkView { source: self.source@, target: self.target@, value: self.value }
    }
}

impl DeepView for Link {
    type V = LinkView;

    open spec fn deep_view(&self) -> LinkView {
        self.view()
    }
}

/// The assembled graph: node and link collections with set semantics.
#[derive(Debug, Clone)]
pub struct Graph {
    pub nodes: Vec<Node>,
    pub links: Vec<Link>,
}

pub struct GraphView {
    pub nodes: Seq<NodeView>,
    pub links: Seq<LinkView>,
}

impl View for Graph {
    type V = GraphView;

    open spec fn view(&self) -> GraphView {
        GraphView { nodes: self.nodes.deep_view(), links: self.links.deep_view() }
    }
}

pub open spec fn empty_graph() -> GraphView {
    GraphView { nodes: Seq::empty(), links: Seq::empty() }
}

/// Idempotent insertion: an already-present value changes nothing.
pub open spec fn insert_node(nodes: Seq<NodeView>, n: NodeView) -> Seq<NodeView> {
    if nodes.contains(n) {
        nodes
    } else {
        nodes.push(n)
    }
}

pub open spec fn insert_link(links: Seq<LinkView>, l: LinkView) -> Seq<LinkView> {
    if links.contains(l) {
        links
    } else {
        links.push(l)
    }
}

/// The `file` node of a non-ignored document.
pub open spec fn file_node(doc: DocumentMetaView) -> NodeView {
    NodeView { id: doc.file_path, title: doc.title, kind: NodeKind::File }
}

/// The ancestor chain of a resolved path, levels `1..=j`: a topic node per
/// prefix and a structural link between each adjacent pair.
pub open spec fn add_chain(g: GraphView, segs: Seq<Seq<char>>, j: int) -> GraphView
    decreases j,
{
    if j <= 0 {
        g
    } else {
        let g1 = add_chain(g, segs, j - 1);
        let id = path_of(segs.take(j));
        let g2 = GraphView {
            nodes: insert_node(
                g1.nodes,
                NodeView { id: id, title: segs[j - 1], kind: NodeKind::Topic },
            ),
            ..g1
        };
        if j >= 2 {
            GraphView {
                links: insert_link(
                    g2.links,
                    LinkView {
                        source: path_of(segs.take(j - 1)),
                        target: id,
                        value: STRUCTURAL_WEIGHT,
                    },
                ),
                ..g2
            }
        } else {
            g2
        }
    }
}

/// One tag of one document: the resolved path's whole chain, plus — for a
/// non-ignored document — an association link to the full resolved path,
/// rendered from its segments exactly as the chain's deepest node id is.  A
/// tag the resolution does not know, or one resolving to the bare root,
/// adds no association link.
pub open spec fn add_tag(g: GraphView, doc: DocumentMetaView, entries: Seq<ResolvedTagView>, tag: Seq<char>) -> GraphView {
    match lookup(entries, tag) {
        Option::None => g,
        Option::Some(p) => {
            let segs = segments(p);
            let g1 = add_chain(g, segs, segs.len() as int);
            if !doc.ignore && segs.len() > 0 {
                GraphView {
                    links: insert_link(
                        g1.links,
                        LinkView {
                            source: doc.file_path,
                            target: path_of(segs),
                            value: ASSOCIATION_WEIGHT,
                        },
                    ),
                    ..g1
                }
            } else {
                g1
            }
        },
    }
}

pub open spec fn add_tags(g: GraphView, doc: DocumentMetaView, entries: Seq<ResolvedTagView>, ts: Seq<Seq<char>>) -> GraphView
    decreases ts.len(),
{
    if ts.len() == 0 {
        g
    } else {
        add_tags(add_tag(g, doc, entries, ts[0]), doc, entries, ts.skip(1))
    }
}

/// One document: its file node when not ignored, then all its tags.
pub open spec fn add_doc(g: GraphView, doc: DocumentMetaView, entries: Seq<ResolvedTagView>) -> GraphView {
    let g1 = if !doc.ignore {
        GraphView { nodes: insert_node(g.nodes, file_node(doc)), ..g }
    } else {
        g
    };
    add_tags(g1, doc, entries, doc.tags)
}

pub open spec fn add_docs(g: GraphView, docs: Seq<DocumentMetaView>, entries: Seq<ResolvedTagView>) -> GraphView
    decreases docs.len(),
{
    if docs.len() == 0 {
        g
    } else {
        add_docs(add_doc(g, docs[0], entries), docs.skip(1), entries)
    }
}

/// The tags of all documents in order, duplicates kept.
pub open spec fn flat_tags(docs: Seq<DocumentMetaView>) -> Seq<Seq<char>>
    decreases docs.len(),
{
    if docs.len() == 0 {
        Seq::empty()
    } else {
        docs[0].tags + flat_tags(docs.skip(1))
    }
}

/// What a document list builds: every tag resolved over the whole list, then
/// each document folded into the empty graph.
pub open spec fn build_spec(docs: Seq<DocumentMetaView>) -> GraphView {
    add_docs(empty_graph(), docs, resolve_spec(flat_tags(docs)))
}

// --- executable assembly ---

fn node_eq(a: &Node, b: &Node) -> (r: bool)
    ensures
        r == (a@ == b@),
{
    let kinds = match (a.kind, b.kind) {
        (NodeKind::File, NodeKind::File) => true,
        (NodeKind::Topic, NodeKind::Topic) => true,
        _ => false,
    };
    kinds && a.id.eq(&b.id) && a.title.eq(&b.title)
}

fn link_eq(a: &Link, b: &Link) -> (r: bool)
    ensures
        r == (a@ == b@),
{
    a.value == b.value && a.source.eq(&b.source) && a.target.eq(&b.target)
}

fn insert_node_vec(nodes: &mut Vec<Node>, n: Node)
    ensures
        final(nodes).deep_view() == insert_node(old(nodes).deep_view(), n@),
{
    let ghost dv = nodes.deep_view();
    let mut i: usize = 0;
    while i < nodes.len()
        invariant
            i <= nodes.len(),
            dv == nodes.deep_view(),
            forall|k: int| 0 <= k < i ==> dv[k] != n@,
        decreases nodes.len() - i,
    {
        if node_eq(&nodes[i], &n) {
            proof {
                assert(dv[i as int] == n@);
                assert(dv.contains(n@));
            }
            return;
        }
        i = i + 1;
    }
    proof {
        assert(!dv.contains(n@));
    }
    nodes.push(n);
    proof {
        assert(nodes.deep_view() =~~= insert_node(dv, nodes@[dv.len() as int]@));
    }
}

fn insert_link_vec(links: &mut Vec<Link>, l: Link)
    ensures
        final(links).deep_view() == insert_link(old(links).deep_view(), l@),
{
    let ghost dv = links.deep_view();
    let mut i: usize = 0;
    while i < links.len()
        invariant
            i <= links.len(),
            dv == links.deep_view(),
            forall|k: int| 0 <= k < i ==> dv[k] != l@,
        decreases links.len() - i,
    {
        if link_eq(&links[i], &l) {
            proof {
                assert(dv[i as int] == l@);
                assert(dv.contains(l@));
            }
            return;
        }
        i = i + 1;
    }
    proof {
        assert(!dv.contains(l@));
    }
    links.push(l);
    proof {
        assert(links.deep_view() =~~= insert_link(dv, links@[dv.len() as int]@));
    }
}

fn apply_tag(g: &mut Graph, doc: &DocumentMeta, entries: &Vec<ResolvedTag>, tag: &String)
    ensures
        final(g)@ == add_tag(old(g)@, doc@, entries.deep_view(), tag@),
{
    let ghost g0 = g@;
    let ghost edv = entries.deep_view();
    match lookup_path(entries, tag) {
        Option::None => {},
        Option::Some(p) => {
            let pchars = to_chars(p.as_str());
            let segs = segments_exec(&pchars);
            let ghost sdv = segs.deep_view();
            let n: usize = segs.len();
            let mut j: usize = 0;
            while j < n
                invariant
                    j <= n,
                    n == segs@.len(),
                    sdv == segs.deep_view(),
                    g@ == add_chain(g0, sdv, j as int),
                decreases n - j,
            {
                let ghost gj = g@;
                let id_chars = path_range(&segs, 0, j + 1);
                proof {
                    assert(sdv.subrange(0, j as int + 1) =~= sdv.take(j as int + 1));
                }
                let id = chars_to_string(&id_chars);
                let seg = chars_to_string(&segs[j]);
                proof {
                    assert(seg@ =~= sdv[j as int]);
                }
                insert_node_vec(&mut g.nodes, Node { id: id.clone(), title: seg, kind: NodeKind::Topic });
                if j >= 1 {
                    let parent_chars = path_range(&segs, 0, j);
                    proof {
                        assert(sdv.subrange(0, j as int) =~= sdv.take(j as int));
                    }
                    let parent = chars_to_string(&parent_chars);
                    insert_link_vec(&mut g.links, Link {
                        source: parent,
                        target: id,
                        value: STRUCTURAL_WEIGHT,
                    });
                }
                j = j + 1;
                proof {
                    assert(g@ == add_chain(g0, sdv, j as int));
                }
            }
            if !doc.ignore && n > 0 {
                let target_chars = path_range(&segs, 0, n);
                proof {
                    assert(sdv.subrange(0, n as int) =~= sdv);
                }
                insert_link_vec(&mut g.links, Link {
                    source: doc.file_path.clone(),
                    target: chars_to_string(&target_chars),
                    value: ASSOCIATION_WEIGHT,
                });
            }
        },
    }
}

fn apply_doc(g: &mut Graph, doc: &DocumentMeta, entries: &Vec<ResolvedTag>)
    ensures
        final(g)@ == add_doc(old(g)@, doc@, entries.deep_view()),
{
    let ghost g0 = g@;
    let ghost edv = entries.deep_view();
    if !doc.ignore {
        insert_node_vec(&mut g.nodes, Node {
            id: doc.file_path.clone(),
            title: doc.title.clone(),
            kind: NodeKind::File,
        });
    }
    let ghost g1 = g@;
    let ghost tdv = doc@.tags;
    let mut t: usize = 0;
    proof {
        assert(tdv.skip(0) =~= tdv);
    }
    while t < doc.tags.len()
        invariant
            t <= doc.tags.len(),
            tdv == doc@.tags,
            add_tags(g1, doc@, edv, tdv) == add_tags(g@, doc@, edv, tdv.skip(t as int)),
            edv == entries.deep_view(),
        decreases doc.tags.len() - t,
    {
        proof {
            assert(tdv.skip(t as int).skip(1) =~= tdv.skip(t as int + 1));
            assert(tdv.skip(t as int)[0] == tdv[t as int]);
        }
        apply_tag(g, doc, entries, &doc.tags[t]);
        t = t + 1;
    }
    proof {
        assert(tdv.skip(tdv.len() as int) =~= Seq::<Seq<char>>::empty());
    }
}

fn collect_tags(docs: &Vec<DocumentMeta>) -> (r: Vec<String>)
    ensures
        r.deep_view() == flat_tags(docs.deep_view()),
{
    let ghost ddv = docs.deep_view();
    let mut out: Vec<String> = Vec::new();
    let mut i: usize = 0;
    proof {
        assert(ddv.skip(0) =~= ddv);
        assert(out.deep_view() =~~= Seq::<Seq<char>>::empty());
        assert(Seq::<Seq<char>>::empty() + flat_tags(ddv) =~= flat_tags(ddv));
    }
    while i < docs.len()
        invariant
            i <= docs.len(),
            ddv == docs.deep_view(),
            flat_tags(ddv) == out.deep_view() + flat_tags(ddv.skip(i as int)),
        decreases docs.len() - i,
    {
        proof {
            assert(ddv.skip(i as int).skip(1) =~= ddv.skip(i as int + 1));
            assert(ddv.skip(i as int)[0] == ddv[i as int]);
        }
        let ghost out0 = out.deep_view();
        let mut t: usize = 0;
        while t < docs[i].tags.len()
            invariant
                t <= docs[i as int].tags.len(),
                ddv == docs.deep_view(),
                i < docs.len(),
                out.deep_view() =~~= out0 + ddv[i as int].tags.take(t as int),
            decreases docs[i as int].tags.len() - t,
        {
            let ghost o1 = out.deep_view();
            out.push(docs[i].tags[t].clone());
            t = t + 1;
            proof {
                assert(out.deep_view() =~~= o1.push(ddv[i as int].tags[t as int - 1]));
                assert(ddv[i as int].tags.take(t as int)
                    =~= ddv[i as int].tags.take(t as int - 1).push(ddv[i as int].tags[t as int - 1]));
                assert(out.deep_view() =~~= out0 + ddv[i as int].tags.take(t as int));
            }
        }
        i = i + 1;
        proof {
            assert(ddv[i as int - 1].tags.take(ddv[i as int - 1].tags.len() as int)
                =~= ddv[i as int - 1].tags);
            assert(out.deep_view() + flat_tags(ddv.skip(i as int))
                =~= (out0 + ddv[i as int - 1].tags) + flat_tags(ddv.skip(i as int)));
            assert((out0 + ddv[i as int - 1].tags) + flat_tags(ddv.skip(i as int))
                =~= out0 + (ddv[i as int - 1].tags + flat_tags(ddv.skip(i as int))));
        }
    }
    proof {
        assert(ddv.skip(ddv.len() as int) =~= Seq::<DocumentMetaView>::empty());
        assert(out.deep_view() + Seq::<Seq<char>>::empty() =~= out.deep_view());
    }
    out
}

/// Builds the deduplicated node and link collections of a document list:
/// exactly the fold `build_spec` describes, with every insertion idempotent.
pub fn build_graph(docs: Vec<DocumentMeta>) -> (g: Graph)
    ensures
        g@ == build_spec(docs.deep_view()),
{
    let ghost ddv = docs.deep_view();
    let all_tags = collect_tags(&docs);
    let entries = resolve(&all_tags);
    let ghost edv = entries.deep_view();
    let mut g = Graph { nodes: Vec::new(), links: Vec::new() };
    proof {
        assert(g@.nodes =~~= empty_graph().nodes);
        assert(g@.links =~~= empty_graph().links);
        assert(ddv.skip(0) =~= ddv);
    }
    let mut i: usize = 0;
    while i < docs.len()
        invariant
            i <= docs.len(),
            ddv == docs.deep_view(),
            edv == entries.deep_view(),
            build_spec(ddv) == add_docs(g@, ddv.skip(i as int), edv),
        decreases docs.len() - i,
    {
        proof {
            assert(ddv.skip(i as int).skip(1) =~= ddv.skip(i as int + 1));
            assert(ddv.skip(i as int)[0] == ddv[i as int]);
        }
        apply_doc(&mut g, &docs[i], &entries);
        i = i + 1;
    }
    proof {
        assert(ddv.skip(ddv.len() as int) =~= Seq::<DocumentMetaView>::empty());
    }
    g
}

} // verus!
