//! Laws of the graph builder, stated and proved over the same spec
//! functions the builder's own contract uses: every collection element is
//! distinct, a node or link tells where it came from, an ignored document
//! leaves no trace as a file node or link source while its tags still raise
//! the full topic chain, and building is deterministic.

use vstd::prelude::*;
use crate::document::DocumentMetaView;
use crate::graph::{
    GraphView, NodeView, LinkView, NodeKind, insert_node, insert_link, file_node, add_chain,
    add_tag, add_tags, add_doc, add_docs, build_spec, empty_graph, flat_tags,
    STRUCTURAL_WEIGHT, ASSOCIATION_WEIGHT,
};
use crate::resolver::{ResolvedTagView, lookup, resolve_spec};
use crate::text::{
    after_last, segments, path_of, seg_wf, lemma_segments_wf, lemma_path_of_snoc,
    lemma_after_last_append,
};

verus! {

/// No two nodes are the same `(id, title, kind)` value.
pub open spec fn distinct_nodes(ns: Seq<NodeView>) -> bool {
    forall|a: int, b: int| 0 <= a < b < ns.len() ==> ns[a] != ns[b]
}

/// No two links are the same `(source, target, value)` value.
pub open spec fn distinct_links(ls: Seq<LinkView>) -> bool {
    forall|a: int, b: int| 0 <= a < b < ls.len() ==> ls[a] != ls[b]
}

/// Some topic node carries this id.
pub open spec fn topic_id(ns: Seq<NodeView>, s: Seq<char>) -> bool {
    exists|k: int| 0 <= k < ns.len() && ns[k].kind == NodeKind::Topic && #[trigger] ns[k].id == s
}

pub open spec fn has_topic_node(ns: Seq<NodeView>, id: Seq<char>, title: Seq<char>) -> bool {
    ns.contains(NodeView { id: id, title: title, kind: NodeKind::Topic })
}

/// Some non-ignored document of the list carries this path.
pub open spec fn file_src(docs: Seq<DocumentMetaView>, s: Seq<char>) -> bool {
    exists|i: int| 0 <= i < docs.len() && !docs[i].ignore && #[trigger] docs[i].file_path == s
}

/// Some file node carries this id.
pub open spec fn file_id(ns: Seq<NodeView>, s: Seq<char>) -> bool {
    exists|k: int| 0 <= k < ns.len() && ns[k].kind == NodeKind::File && #[trigger] ns[k].id == s
}

/// Where a node comes from: a topic node is titled by the last segment of
/// its id; a file node restates a non-ignored document.
pub open spec fn node_ok(n: NodeView, docs: Seq<DocumentMetaView>) -> bool {
    match n.kind {
        NodeKind::Topic => n.title == after_last(n.id, '/'),
        NodeKind::File => exists|i: int|
            0 <= i < docs.len() && !docs[i].ignore && #[trigger] docs[i].file_path == n.id
                && docs[i].title == n.title,
    }
}

/// Where a link comes from: a structural link runs between topic node ids;
/// an association link starts at a non-ignored document's path, present as
/// a file node, and ends at a topic node.
pub open spec fn link_ok(l: LinkView, ns: Seq<NodeView>, docs: Seq<DocumentMetaView>) -> bool {
    (l.value == STRUCTURAL_WEIGHT && topic_id(ns, l.source) && topic_id(ns, l.target)) || (l.value
        == ASSOCIATION_WEIGHT && file_src(docs, l.source) && file_id(ns, l.source) && topic_id(
        ns,
        l.target,
    ))
}

/// The builder's invariant over a graph under construction.
pub open spec fn graph_wf(g: GraphView, docs: Seq<DocumentMetaView>) -> bool {
    &&& distinct_nodes(g.nodes)
    &&& distinct_links(g.links)
    &&& forall|k: int| 0 <= k < g.nodes.len() ==> node_ok(#[trigger] g.nodes[k], docs)
    &&& forall|k: int| 0 <= k < g.links.len() ==> link_ok(#[trigger] g.links[k], g.nodes, docs)
}

pub open spec fn nodes_mono(a: Seq<NodeView>, b: Seq<NodeView>) -> bool {
    forall|x: NodeView| a.contains(x) ==> b.contains(x)
}

pub open spec fn links_mono(a: Seq<LinkView>, b: Seq<LinkView>) -> bool {
    forall|x: LinkView| a.contains(x) ==> b.contains(x)
}

proof fn lemma_insert_node_wf(ns: Seq<NodeView>, n: NodeView, docs: Seq<DocumentMetaView>)
    requires
        distinct_nodes(ns),
        forall|k: int| 0 <= k < ns.len() ==> node_ok(#[trigger] ns[k], docs),
        node_ok(n, docs),
    ensures
        distinct_nodes(insert_node(ns, n)),
        forall|k: int| 0 <= k < insert_node(ns, n).len() ==> node_ok(
            #[trigger] insert_node(ns, n)[k],
            docs,
        ),
        nodes_mono(ns, insert_node(ns, n)),
        insert_node(ns, n).contains(n),
{
    let r = insert_node(ns, n);
    if ns.contains(n) {
    } else {
        assert forall|a: int, b: int| 0 <= a < b < r.len() implies r[a] != r[b] by {
            if b == ns.len() {
                assert(r[b] == n);
                assert(!ns.contains(n));
                assert(ns[a] == r[a]);
            }
        }
        assert forall|x: NodeView| ns.contains(x) implies r.contains(x) by {
            let k = choose|k: int| 0 <= k < ns.len() && ns[k] == x;
            assert(r[k] == x);
        }
        assert(r[ns.len() as int] == n);
    }
    if ns.contains(n) {
        assert forall|x: NodeView| ns.contains(x) implies r.contains(x) by {}
    }
}

proof fn lemma_insert_link_wf(
    ls: Seq<LinkView>,
    l: LinkView,
    ns: Seq<NodeView>,
    docs: Seq<DocumentMetaView>,
)
    requires
        distinct_links(ls),
        forall|k: int| 0 <= k < ls.len() ==> link_ok(#[trigger] ls[k], ns, docs),
        link_ok(l, ns, docs),
    ensures
        distinct_links(insert_link(ls, l)),
        forall|k: int| 0 <= k < insert_link(ls, l).len() ==> link_ok(
            #[trigger] insert_link(ls, l)[k],
            ns,
            docs,
        ),
        links_mono(ls, insert_link(ls, l)),
        insert_link(ls, l).contains(l),
{
    let r = insert_link(ls, l);
    if ls.contains(l) {
    } else {
        assert forall|a: int, b: int| 0 <= a < b < r.len() implies r[a] != r[b] by {
            if b == ls.len() {
                assert(r[b] == l);
                assert(!ls.contains(l));
                assert(ls[a] == r[a]);
            }
        }
        assert forall|x: LinkView| ls.contains(x) implies r.contains(x) by {
            let k = choose|k: int| 0 <= k < ls.len() && ls[k] == x;
            assert(r[k] == x);
        }
        assert(r[ls.len() as int] == l);
    }
}

/// `link_ok` only grows with the node collection.
proof fn lemma_link_ok_mono(
    ls: Seq<LinkView>,
    ns1: Seq<NodeView>,
    ns2: Seq<NodeView>,
    docs: Seq<DocumentMetaView>,
)
    requires
        forall|k: int| 0 <= k < ls.len() ==> link_ok(#[trigger] ls[k], ns1, docs),
        nodes_mono(ns1, ns2),
    ensures
        forall|k: int| 0 <= k < ls.len() ==> link_ok(#[trigger] ls[k], ns2, docs),
{
    assert forall|k: int| 0 <= k < ls.len() implies link_ok(#[trigger] ls[k], ns2, docs) by {
        let l = ls[k];
        assert(link_ok(l, ns1, docs));
        if l.value == STRUCTURAL_WEIGHT && topic_id(ns1, l.source) && topic_id(ns1, l.target) {
            lemma_topic_id_mono(ns1, ns2, l.source);
            lemma_topic_id_mono(ns1, ns2, l.target);
        } else {
            lemma_file_id_mono(ns1, ns2, l.source);
            lemma_topic_id_mono(ns1, ns2, l.target);
        }
    }
}

proof fn lemma_topic_id_mono(ns1: Seq<NodeView>, ns2: Seq<NodeView>, s: Seq<char>)
    requires
        nodes_mono(ns1, ns2),
        topic_id(ns1, s),
    ensures
        topic_id(ns2, s),
{
    let a = choose|a: int|
        0 <= a < ns1.len() && ns1[a].kind == NodeKind::Topic && #[trigger] ns1[a].id == s;
    assert(ns1.contains(ns1[a]));
    assert(ns2.contains(ns1[a]));
    let ai = choose|ai: int| 0 <= ai < ns2.len() && ns2[ai] == ns1[a];
    assert(ns2[ai].kind == NodeKind::Topic && ns2[ai].id == s);
}

proof fn lemma_file_id_mono(ns1: Seq<NodeView>, ns2: Seq<NodeView>, s: Seq<char>)
    requires
        nodes_mono(ns1, ns2),
        file_id(ns1, s),
    ensures
        file_id(ns2, s),
{
    let a = choose|a: int|
        0 <= a < ns1.len() && ns1[a].kind == NodeKind::File && #[trigger] ns1[a].id == s;
    assert(ns1.contains(ns1[a]));
    assert(ns2.contains(ns1[a]));
    let ai = choose|ai: int| 0 <= ai < ns2.len() && ns2[ai] == ns1[a];
    assert(ns2[ai].kind == NodeKind::File && ns2[ai].id == s);
}

proof fn lemma_add_chain_wf(
    g: GraphView,
    segs: Seq<Seq<char>>,
    j: int,
    docs: Seq<DocumentMetaView>,
)
    requires
        graph_wf(g, docs),
        forall|k: int| 0 <= k < segs.len() ==> seg_wf(#[trigger] segs[k], '/'),
        j <= segs.len(),
    ensures
        graph_wf(add_chain(g, segs, j), docs),
        nodes_mono(g.nodes, add_chain(g, segs, j).nodes),
        links_mono(g.links, add_chain(g, segs, j).links),
        forall|m: int| 1 <= m <= j ==> has_topic_node(
            add_chain(g, segs, j).nodes,
            path_of(#[trigger] segs.take(m)),
            segs[m - 1],
        ),
    decreases j,
{
    if j <= 0 {
    } else {
        lemma_add_chain_wf(g, segs, j - 1, docs);
        let g1 = add_chain(g, segs, j - 1);
        let id = path_of(segs.take(j));
        assert(segs.take(j) =~= segs.take(j - 1).push(segs[j - 1]));
        lemma_path_of_snoc(segs.take(j - 1), segs[j - 1]);
        assert(seg_wf(segs[j - 1], '/'));
        lemma_after_last_append(path_of(segs.take(j - 1)), segs[j - 1], '/');
        let n_j = NodeView { id: id, title: segs[j - 1], kind: NodeKind::Topic };
        assert(node_ok(n_j, docs));
        lemma_insert_node_wf(g1.nodes, n_j, docs);
        let g2 = GraphView { nodes: insert_node(g1.nodes, n_j), ..g1 };
        lemma_link_ok_mono(g2.links, g1.nodes, g2.nodes, docs);
        assert forall|m: int| 1 <= m <= j implies has_topic_node(
            g2.nodes,
            path_of(#[trigger] segs.take(m)),
            segs[m - 1],
        ) by {
            if m < j {
                assert(has_topic_node(g1.nodes, path_of(segs.take(m)), segs[m - 1]));
                assert(g2.nodes.contains(
                    NodeView { id: path_of(segs.take(m)), title: segs[m - 1], kind: NodeKind::Topic },
                ));
            } else {
                assert(g2.nodes.contains(n_j));
            }
        }
        if j >= 2 {
            let src = path_of(segs.take(j - 1));
            let parent = NodeView { id: src, title: segs[j - 2], kind: NodeKind::Topic };
            assert(has_topic_node(g2.nodes, src, segs[j - 2]));
            let pk = choose|pk: int| 0 <= pk < g2.nodes.len() && g2.nodes[pk] == parent;
            assert(g2.nodes[pk].kind == NodeKind::Topic && g2.nodes[pk].id == src);
            assert(topic_id(g2.nodes, src));
            let nk = choose|nk: int| 0 <= nk < g2.nodes.len() && g2.nodes[nk] == n_j;
            assert(g2.nodes[nk].kind == NodeKind::Topic && g2.nodes[nk].id == id);
            assert(topic_id(g2.nodes, id));
            let l = LinkView { source: src, target: id, value: STRUCTURAL_WEIGHT };
            assert(link_ok(l, g2.nodes, docs));
            lemma_insert_link_wf(g2.links, l, g2.nodes, docs);
        }
    }
}

proof fn lemma_add_tag_wf(
    g: GraphView,
    doc: DocumentMetaView,
    entries: Seq<ResolvedTagView>,
    tag: Seq<char>,
    docs: Seq<DocumentMetaView>,
)
    requires
        graph_wf(g, docs),
        docs.contains(doc),
        !doc.ignore ==> file_id(g.nodes, doc.file_path),
    ensures
        graph_wf(add_tag(g, doc, entries, tag), docs),
        nodes_mono(g.nodes, add_tag(g, doc, entries, tag).nodes),
        links_mono(g.links, add_tag(g, doc, entries, tag).links),
        match lookup(entries, tag) {
            Option::Some(p) => (forall|m: int| 1 <= m <= segments(p).len() ==> has_topic_node(
                add_tag(g, doc, entries, tag).nodes,
                path_of(#[trigger] segments(p).take(m)),
                segments(p)[m - 1],
            )) && (!doc.ignore && segments(p).len() > 0 ==> add_tag(
                g,
                doc,
                entries,
                tag,
            ).links.contains(
                LinkView {
                    source: doc.file_path,
                    target: path_of(segments(p)),
                    value: ASSOCIATION_WEIGHT,
                },
            )),
            Option::None => add_tag(g, doc, entries, tag) == g,
        },
{
    match lookup(entries, tag) {
        Option::None => {},
        Option::Some(p) => {
            let segs = segments(p);
            lemma_segments_wf(p);
            lemma_add_chain_wf(g, segs, segs.len() as int, docs);
            let g1 = add_chain(g, segs, segs.len() as int);
            if !doc.ignore && segs.len() > 0 {
                let l = LinkView {
                    source: doc.file_path,
                    target: path_of(segs),
                    value: ASSOCIATION_WEIGHT,
                };
                let i = choose|i: int| 0 <= i < docs.len() && docs[i] == doc;
                assert(docs[i].file_path == doc.file_path && !docs[i].ignore);
                assert(file_src(docs, doc.file_path));
                lemma_file_id_mono(g.nodes, g1.nodes, doc.file_path);
                assert(segs.take(segs.len() as int) =~= segs);
                assert(has_topic_node(g1.nodes, path_of(segs), segs[segs.len() - 1]));
                let deep = NodeView {
                    id: path_of(segs),
                    title: segs[segs.len() - 1],
                    kind: NodeKind::Topic,
                };
                let dk = choose|dk: int| 0 <= dk < g1.nodes.len() && g1.nodes[dk] == deep;
                assert(g1.nodes[dk].kind == NodeKind::Topic && g1.nodes[dk].id == path_of(segs));
                assert(topic_id(g1.nodes, path_of(segs)));
                assert(link_ok(l, g1.nodes, docs));
                lemma_insert_link_wf(g1.links, l, g1.nodes, docs);
            }
        },
    }
}

proof fn lemma_add_tags_wf(
    g: GraphView,
    doc: DocumentMetaView,
    entries: Seq<ResolvedTagView>,
    ts: Seq<Seq<char>>,
    docs: Seq<DocumentMetaView>,
)
    requires
        graph_wf(g, docs),
        docs.contains(doc),
        !doc.ignore ==> file_id(g.nodes, doc.file_path),
    ensures
        graph_wf(add_tags(g, doc, entries, ts), docs),
        nodes_mono(g.nodes, add_tags(g, doc, entries, ts).nodes),
        links_mono(g.links, add_tags(g, doc, entries, ts).links),
    decreases ts.len(),
{
    if ts.len() == 0 {
    } else {
        lemma_add_tag_wf(g, doc, entries, ts[0], docs);
        let g1 = add_tag(g, doc, entries, ts[0]);
        if !doc.ignore {
            lemma_file_id_mono(g.nodes, g1.nodes, doc.file_path);
        }
        lemma_add_tags_wf(g1, doc, entries, ts.skip(1), docs);
    }
}

proof fn lemma_add_tags_presence(
    g: GraphView,
    doc: DocumentMetaView,
    entries: Seq<ResolvedTagView>,
    ts: Seq<Seq<char>>,
    docs: Seq<DocumentMetaView>,
    t: int,
)
    requires
        graph_wf(g, docs),
        docs.contains(doc),
        !doc.ignore ==> file_id(g.nodes, doc.file_path),
        0 <= t < ts.len(),
    ensures
        match lookup(entries, ts[t]) {
            Option::Some(p) => (forall|m: int| 1 <= m <= segments(p).len() ==> has_topic_node(
                add_tags(g, doc, entries, ts).nodes,
                path_of(#[trigger] segments(p).take(m)),
                segments(p)[m - 1],
            )) && (!doc.ignore && segments(p).len() > 0 ==> add_tags(
                g,
                doc,
                entries,
                ts,
            ).links.contains(
                LinkView {
                    source: doc.file_path,
                    target: path_of(segments(p)),
                    value: ASSOCIATION_WEIGHT,
                },
            )),
            Option::None => true,
        },
    decreases ts.len(),
{
    lemma_add_tag_wf(g, doc, entries, ts[0], docs);
    let g1 = add_tag(g, doc, entries, ts[0]);
    if !doc.ignore {
        lemma_file_id_mono(g.nodes, g1.nodes, doc.file_path);
    }
    if t == 0 {
        lemma_add_tags_wf(g1, doc, entries, ts.skip(1), docs);
        match lookup(entries, ts[0]) {
            Option::Some(p) => {
                let segs = segments(p);
                assert forall|m: int| 1 <= m <= segs.len() implies has_topic_node(
                    add_tags(g, doc, entries, ts).nodes,
                    path_of(#[trigger] segs.take(m)),
                    segs[m - 1],
                ) by {
                    assert(has_topic_node(g1.nodes, path_of(segs.take(m)), segs[m - 1]));
                    let node = NodeView {
                        id: path_of(segs.take(m)),
                        title: segs[m - 1],
                        kind: NodeKind::Topic,
                    };
                    assert(g1.nodes.contains(node));
                    assert(add_tags(g1, doc, entries, ts.skip(1)).nodes.contains(node));
                }
            },
            Option::None => {},
        }
    } else {
        lemma_add_tags_presence(g1, doc, entries, ts.skip(1), docs, t - 1);
        assert(ts.skip(1)[t - 1] == ts[t]);
    }
}

proof fn lemma_add_doc_wf(
    g: GraphView,
    doc: DocumentMetaView,
    entries: Seq<ResolvedTagView>,
    docs: Seq<DocumentMetaView>,
)
    requires
        graph_wf(g, docs),
        docs.contains(doc),
    ensures
        graph_wf(add_doc(g, doc, entries), docs),
        nodes_mono(g.nodes, add_doc(g, doc, entries).nodes),
        links_mono(g.links, add_doc(g, doc, entries).links),
{
    let g1 = if !doc.ignore {
        GraphView { nodes: insert_node(g.nodes, file_node(doc)), ..g }
    } else {
        g
    };
    if !doc.ignore {
        let i = choose|i: int| 0 <= i < docs.len() && docs[i] == doc;
        assert(docs[i].file_path == file_node(doc).id && docs[i].title == file_node(doc).title
            && !docs[i].ignore);
        assert(node_ok(file_node(doc), docs));
        lemma_insert_node_wf(g.nodes, file_node(doc), docs);
        lemma_link_ok_mono(g1.links, g.nodes, g1.nodes, docs);
        let fk = choose|fk: int| 0 <= fk < g1.nodes.len() && g1.nodes[fk] == file_node(doc);
        assert(g1.nodes[fk].kind == NodeKind::File && g1.nodes[fk].id == doc.file_path);
        assert(file_id(g1.nodes, doc.file_path));
    }
    lemma_add_tags_wf(g1, doc, entries, doc.tags, docs);
}

proof fn lemma_add_docs_wf(
    g: GraphView,
    ds: Seq<DocumentMetaView>,
    entries: Seq<ResolvedTagView>,
    docs: Seq<DocumentMetaView>,
)
    requires
        graph_wf(g, docs),
        forall|k: int| 0 <= k < ds.len() ==> docs.contains(#[trigger] ds[k]),
    ensures
        graph_wf(add_docs(g, ds, entries), docs),
        nodes_mono(g.nodes, add_docs(g, ds, entries).nodes),
        links_mono(g.links, add_docs(g, ds, entries).links),
    decreases ds.len(),
{
    if ds.len() == 0 {
    } else {
        assert(docs.contains(ds[0]));
        lemma_add_doc_wf(g, ds[0], entries, docs);
        assert forall|k: int| 0 <= k < ds.skip(1).len() implies docs.contains(
            #[trigger] ds.skip(1)[k],
        ) by {
            assert(ds.skip(1)[k] == ds[k + 1]);
        }
        lemma_add_docs_wf(add_doc(g, ds[0], entries), ds.skip(1), entries, docs);
    }
}

proof fn lemma_add_doc_presence(
    g: GraphView,
    doc: DocumentMetaView,
    entries: Seq<ResolvedTagView>,
    docs: Seq<DocumentMetaView>,
    t: int,
)
    requires
        graph_wf(g, docs),
        docs.contains(doc),
        0 <= t < doc.tags.len(),
    ensures
        match lookup(entries, doc.tags[t]) {
            Option::Some(p) => (forall|m: int| 1 <= m <= segments(p).len() ==> has_topic_node(
                add_doc(g, doc, entries).nodes,
                path_of(#[trigger] segments(p).take(m)),
                segments(p)[m - 1],
            )) && (!doc.ignore && segments(p).len() > 0 ==> add_doc(g, doc, entries).links.contains(
                LinkView {
                    source: doc.file_path,
                    target: path_of(segments(p)),
                    value: ASSOCIATION_WEIGHT,
                },
            )),
            Option::None => true,
        },
{
    let g1 = if !doc.ignore {
        GraphView { nodes: insert_node(g.nodes, file_node(doc)), ..g }
    } else {
        g
    };
    if !doc.ignore {
        let i = choose|i: int| 0 <= i < docs.len() && docs[i] == doc;
        assert(docs[i].file_path == file_node(doc).id && docs[i].title == file_node(doc).title
            && !docs[i].ignore);
        assert(node_ok(file_node(doc), docs));
        lemma_insert_node_wf(g.nodes, file_node(doc), docs);
        lemma_link_ok_mono(g1.links, g.nodes, g1.nodes, docs);
        let fk = choose|fk: int| 0 <= fk < g1.nodes.len() && g1.nodes[fk] == file_node(doc);
        assert(g1.nodes[fk].kind == NodeKind::File && g1.nodes[fk].id == doc.file_path);
        assert(file_id(g1.nodes, doc.file_path));
    }
    lemma_add_tags_presence(g1, doc, entries, doc.tags, docs, t);
}

proof fn lemma_add_docs_presence(
    g: GraphView,
    ds: Seq<DocumentMetaView>,
    entries: Seq<ResolvedTagView>,
    docs: Seq<DocumentMetaView>,
    di: int,
    t: int,
)
    requires
        graph_wf(g, docs),
        forall|k: int| 0 <= k < ds.len() ==> docs.contains(#[trigger] ds[k]),
        0 <= di < ds.len(),
        0 <= t < ds[di].tags.len(),
    ensures
        match lookup(entries, ds[di].tags[t]) {
            Option::Some(p) => (forall|m: int| 1 <= m <= segments(p).len() ==> has_topic_node(
                add_docs(g, ds, entries).nodes,
                path_of(#[trigger] segments(p).take(m)),
                segments(p)[m - 1],
            )) && (!ds[di].ignore && segments(p).len() > 0 ==> add_docs(g, ds, entries).links.contains(
                LinkView {
                    source: ds[di].file_path,
                    target: path_of(segments(p)),
                    value: ASSOCIATION_WEIGHT,
                },
            )),
            Option::None => true,
        },
    decreases ds.len(),
{
    assert(docs.contains(ds[0]));
    lemma_add_doc_wf(g, ds[0], entries, docs);
    let g1 = add_doc(g, ds[0], entries);
    assert forall|k: int| 0 <= k < ds.skip(1).len() implies docs.contains(
        #[trigger] ds.skip(1)[k],
    ) by {
        assert(ds.skip(1)[k] == ds[k + 1]);
    }
    if di == 0 {
        lemma_add_doc_presence(g, ds[0], entries, docs, t);
        lemma_add_docs_wf(g1, ds.skip(1), entries, docs);
        match lookup(entries, ds[0].tags[t]) {
            Option::Some(p) => {
                let segs = segments(p);
                assert forall|m: int| 1 <= m <= segs.len() implies has_topic_node(
                    add_docs(g, ds, entries).nodes,
                    path_of(#[trigger] segs.take(m)),
                    segs[m - 1],
                ) by {
                    let node = NodeView {
                        id: path_of(segs.take(m)),
                        title: segs[m - 1],
                        kind: NodeKind::Topic,
                    };
                    assert(g1.nodes.contains(node));
                    assert(add_docs(g1, ds.skip(1), entries).nodes.contains(node));
                }
            },
            Option::None => {},
        }
    } else {
        lemma_add_docs_presence(g1, ds.skip(1), entries, docs, di - 1, t);
        assert(ds.skip(1)[di - 1] == ds[di]);
    }
}

/// The built graph satisfies the builder's invariant: distinct elements,
/// every node and link accounted for by a document or a topic chain.
pub proof fn lemma_build_wf(docs: Seq<DocumentMetaView>)
    ensures
        graph_wf(build_spec(docs), docs),
{
    let entries = resolve_spec(flat_tags(docs));
    assert(graph_wf(empty_graph(), docs));
    assert forall|k: int| 0 <= k < docs.len() implies docs.contains(#[trigger] docs[k]) by {}
    lemma_add_docs_wf(empty_graph(), docs, entries, docs);
}

/// Dedup law: among the built nodes no two share an `(id, kind)` pair with
/// different titles, and among the built links no two share a
/// `(source, target)` pair with different values — provided document paths
/// are unique and no document path doubles as a topic node id.
pub proof fn lemma_dedup(docs: Seq<DocumentMetaView>)
    requires
        forall|i: int, j: int| 0 <= i < j < docs.len()
            ==> docs[i].file_path != docs[j].file_path,
        forall|i: int, k: int|
            0 <= i < docs.len() && 0 <= k < build_spec(docs).nodes.len() && build_spec(
                docs,
            ).nodes[k].kind == NodeKind::Topic ==> docs[i].file_path != build_spec(
                docs,
            ).nodes[k].id,
    ensures
        distinct_nodes(build_spec(docs).nodes),
        distinct_links(build_spec(docs).links),
        forall|a: int, b: int|
            0 <= a < build_spec(docs).nodes.len() && 0 <= b < build_spec(docs).nodes.len()
                && build_spec(docs).nodes[a].id == build_spec(docs).nodes[b].id && build_spec(
                docs,
            ).nodes[a].kind == build_spec(docs).nodes[b].kind ==> build_spec(docs).nodes[a].title
                == build_spec(docs).nodes[b].title,
        forall|a: int, b: int|
            0 <= a < build_spec(docs).links.len() && 0 <= b < build_spec(docs).links.len()
                && build_spec(docs).links[a].source == build_spec(docs).links[b].source
                && build_spec(docs).links[a].target == build_spec(docs).links[b].target
                ==> build_spec(docs).links[a].value == build_spec(docs).links[b].value,
{
    lemma_build_wf(docs);
    let g = build_spec(docs);
    assert forall|a: int, b: int|
        0 <= a < g.nodes.len() && 0 <= b < g.nodes.len() && g.nodes[a].id == g.nodes[b].id
            && g.nodes[a].kind == g.nodes[b].kind implies g.nodes[a].title
        == g.nodes[b].title by {
        assert(node_ok(g.nodes[a], docs));
        assert(node_ok(g.nodes[b], docs));
        match g.nodes[a].kind {
            NodeKind::Topic => {},
            NodeKind::File => {
                let i = choose|i: int|
                    0 <= i < docs.len() && !docs[i].ignore && #[trigger] docs[i].file_path
                        == g.nodes[a].id && docs[i].title == g.nodes[a].title;
                let j = choose|j: int|
                    0 <= j < docs.len() && !docs[j].ignore && #[trigger] docs[j].file_path
                        == g.nodes[b].id && docs[j].title == g.nodes[b].title;
                if i != j {
                    assert(docs[i].file_path == docs[j].file_path);
                    assert(false);
                }
            },
        }
    }
    assert forall|a: int, b: int|
        0 <= a < g.links.len() && 0 <= b < g.links.len() && g.links[a].source
            == g.links[b].source && g.links[a].target == g.links[b].target implies g.links[a].value
        == g.links[b].value by {
        assert(link_ok(g.links[a], g.nodes, docs));
        assert(link_ok(g.links[b], g.nodes, docs));
        if g.links[a].value != g.links[b].value {
            // one is structural, the other associative: its shared source is
            // both a topic node id and a non-ignored document path
            let (sl, al) = if g.links[a].value == STRUCTURAL_WEIGHT {
                (g.links[a], g.links[b])
            } else {
                (g.links[b], g.links[a])
            };
            assert(topic_id(g.nodes, sl.source));
            assert(file_src(docs, al.source));
            let k = choose|k: int|
                0 <= k < g.nodes.len() && g.nodes[k].kind == NodeKind::Topic
                    && #[trigger] g.nodes[k].id == sl.source;
            let i = choose|i: int|
                0 <= i < docs.len() && !docs[i].ignore && #[trigger] docs[i].file_path
                    == al.source;
            assert(docs[i].file_path == g.nodes[k].id);
            assert(false);
        }
    }
}

/// Ignore law, first half: a document marked ignore contributes no file
/// node and no link source — provided document paths are unique and no
/// document path doubles as a topic node id.
pub proof fn lemma_ignored_doc_invisible(docs: Seq<DocumentMetaView>, i: int)
    requires
        0 <= i < docs.len(),
        docs[i].ignore,
        forall|a: int, b: int| 0 <= a < b < docs.len()
            ==> docs[a].file_path != docs[b].file_path,
        forall|a: int, k: int|
            0 <= a < docs.len() && 0 <= k < build_spec(docs).nodes.len() && build_spec(
                docs,
            ).nodes[k].kind == NodeKind::Topic ==> docs[a].file_path != build_spec(
                docs,
            ).nodes[k].id,
    ensures
        forall|k: int|
            0 <= k < build_spec(docs).nodes.len() && build_spec(docs).nodes[k].kind
                == NodeKind::File ==> build_spec(docs).nodes[k].id != docs[i].file_path,
        forall|k: int| 0 <= k < build_spec(docs).links.len()
            ==> build_spec(docs).links[k].source != docs[i].file_path,
{
    lemma_build_wf(docs);
    let g = build_spec(docs);
    assert forall|k: int|
        0 <= k < g.nodes.len() && g.nodes[k].kind == NodeKind::File implies g.nodes[k].id
        != docs[i].file_path by {
        assert(node_ok(g.nodes[k], docs));
        let j = choose|j: int|
            0 <= j < docs.len() && !docs[j].ignore && #[trigger] docs[j].file_path
                == g.nodes[k].id && docs[j].title == g.nodes[k].title;
        if g.nodes[k].id == docs[i].file_path {
            assert(docs[j].file_path == docs[i].file_path);
            assert(j != i);
            assert(false);
        }
    }
    assert forall|k: int| 0 <= k < g.links.len() implies g.links[k].source
        != docs[i].file_path by {
        assert(link_ok(g.links[k], g.nodes, docs));
        let l = g.links[k];
        if l.value == STRUCTURAL_WEIGHT && topic_id(g.nodes, l.source) && topic_id(
            g.nodes,
            l.target,
        ) {
            let n = choose|n: int|
                0 <= n < g.nodes.len() && g.nodes[n].kind == NodeKind::Topic
                    && #[trigger] g.nodes[n].id == l.source;
            if l.source == docs[i].file_path {
                assert(docs[i].file_path == g.nodes[n].id);
                assert(false);
            }
        } else {
            let j = choose|j: int|
                0 <= j < docs.len() && !docs[j].ignore && #[trigger] docs[j].file_path
                    == l.source;
            if l.source == docs[i].file_path {
                assert(docs[j].file_path == docs[i].file_path);
                assert(j != i);
                assert(false);
            }
        }
    }
}

/// Ignore law, second half: every tag of every document — an ignored one
/// included — resolves to a path and raises that path's whole topic chain
/// in the built graph.
pub proof fn lemma_tags_always_counted(docs: Seq<DocumentMetaView>, i: int, t: int)
    requires
        0 <= i < docs.len(),
        0 <= t < docs[i].tags.len(),
    ensures
        match lookup(resolve_spec(flat_tags(docs)), docs[i].tags[t]) {
            Option::Some(p) => forall|m: int| 1 <= m <= segments(p).len() ==> has_topic_node(
                build_spec(docs).nodes,
                path_of(#[trigger] segments(p).take(m)),
                segments(p)[m - 1],
            ),
            Option::None => false,
        },
{
    let entries = resolve_spec(flat_tags(docs));
    lemma_flat_tags_contains(docs, i, t);
    crate::resolver::lemma_resolve_total(flat_tags(docs), docs[i].tags[t]);
    assert(graph_wf(empty_graph(), docs));
    assert forall|k: int| 0 <= k < docs.len() implies docs.contains(#[trigger] docs[k]) by {}
    lemma_add_docs_presence(empty_graph(), docs, entries, docs, i, t);
}

/// Global-invariant law: every link endpoint of the built graph exists as
/// a node — structural links run between topic nodes, association links
/// from a file node to a topic node.
pub proof fn lemma_links_are_grounded(docs: Seq<DocumentMetaView>)
    ensures
        forall|k: int|
            #![trigger build_spec(docs).links[k]]
            0 <= k < build_spec(docs).links.len() ==> (topic_id(
                build_spec(docs).nodes,
                build_spec(docs).links[k].source,
            ) || file_id(build_spec(docs).nodes, build_spec(docs).links[k].source)) && topic_id(
                build_spec(docs).nodes,
                build_spec(docs).links[k].target,
            ),
{
    lemma_build_wf(docs);
    let g = build_spec(docs);
    assert forall|k: int|
        0 <= k < g.links.len() implies (topic_id(g.nodes, #[trigger] g.links[k].source) || file_id(
        g.nodes,
        g.links[k].source,
    )) && topic_id(g.nodes, g.links[k].target) by {
        assert(link_ok(g.links[k], g.nodes, docs));
    }
}

proof fn lemma_flat_tags_contains(docs: Seq<DocumentMetaView>, i: int, t: int)
    requires
        0 <= i < docs.len(),
        0 <= t < docs[i].tags.len(),
    ensures
        flat_tags(docs).contains(docs[i].tags[t]),
    decreases i,
{
    if i == 0 {
        assert(flat_tags(docs)[t] == docs[0].tags[t]);
    } else {
        lemma_flat_tags_contains(docs.skip(1), i - 1, t);
        assert(docs.skip(1)[i - 1] == docs[i]);
        let k = choose|k: int|
            0 <= k < flat_tags(docs.skip(1)).len() && flat_tags(docs.skip(1))[k]
                == docs[i].tags[t];
        assert(flat_tags(docs)[docs[0].tags.len() + k] == docs[i].tags[t]);
    }
}

/// Association law: every tag of every non-ignored document yields its
/// association link in the built graph, as long as the tag resolves below
/// the bare root; and every such tag does resolve.
pub proof fn lemma_doc_tags_linked(docs: Seq<DocumentMetaView>, i: int, t: int)
    requires
        0 <= i < docs.len(),
        !docs[i].ignore,
        0 <= t < docs[i].tags.len(),
    ensures
        match lookup(resolve_spec(flat_tags(docs)), docs[i].tags[t]) {
            Option::Some(p) => segments(p).len() > 0 ==> build_spec(docs).links.contains(
                LinkView {
                    source: docs[i].file_path,
                    target: path_of(segments(p)),
                    value: ASSOCIATION_WEIGHT,
                },
            ),
            Option::None => false,
        },
{
    let entries = resolve_spec(flat_tags(docs));
    lemma_flat_tags_contains(docs, i, t);
    crate::resolver::lemma_resolve_total(flat_tags(docs), docs[i].tags[t]);
    assert(graph_wf(empty_graph(), docs));
    assert forall|k: int| 0 <= k < docs.len() implies docs.contains(#[trigger] docs[k]) by {}
    lemma_add_docs_presence(empty_graph(), docs, entries, docs, i, t);
}

/// Idempotence law: the builder is a pure function of the document list, so
/// two builds over the same list yield the same node set and the same link
/// set.
pub proof fn lemma_build_deterministic(docs: Seq<DocumentMetaView>, g1: GraphView, g2: GraphView)
    requires
        g1 == build_spec(docs),
        g2 == build_spec(docs),
    ensures
        g1.nodes.to_set() == g2.nodes.to_set(),
        g1.links.to_set() == g2.links.to_set(),
{
}

} // verus!
