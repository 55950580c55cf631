//! Conversion of a parsed graph-description file's node and edge sets to
//! the plain two-member `{nodes, links}` JSON shape, so that pipeline and
//! the markdown analysis feed the same renderer.  The caller parses the
//! file and hands the node identifiers and edges over as plain values.

use vstd::prelude::*;
use vstd::string::*;
use crate::serializer::json_string;

verus! {

/// One directed edge of a parsed graph-description file.
#[derive(Debug, Clone)]
pub struct DotEdge {
    pub from: String,
    pub to: String,
}

pub struct DotEdgeView {
    pub from: Seq<char>,
    pub to: Seq<char>,
}

impl View for DotEdge {
    type V = DotEdgeView;

    open spec fn view(&self) -> DotEdgeView {
        DotEdgeView { from: self.from@, to: self.to@ }
    }
}

impl DeepView for DotEdge {
    type V = DotEdgeView;

    open spec fn deep_view(&self) -> DotEdgeView {
        self.view()
    }
}

pub open spec fn dot_node_json(id: Seq<char>) -> Seq<char> {
    "    {\n      \"id\": "@ + json_string(id) + ",\n      \"group\": 1\n    }"@
}

pub open spec fn dot_link_json(e: DotEdgeView) -> Seq<char> {
    "    {\n      \"source\": "@ + json_string(e.from) + ",\n      \"target\": "@ + json_string(
        e.to,
    ) + ",\n      \"value\": 1\n    }"@
}

pub open spec fn dot_nodes_rec(ids: Seq<Seq<char>>, acc: Seq<char>) -> Seq<char>
    decreases ids.len(),
{
    if ids.len() == 0 {
        acc
    } else {
        dot_nodes_rec(ids.skip(1), acc + ",\n"@ + dot_node_json(ids[0]))
    }
}

pub open spec fn dot_nodes_json(ids: Seq<Seq<char>>) -> Seq<char> {
    if ids.len() == 0 {
        "[]"@
    } else {
        "[\n"@ + dot_node_json(ids[0]) + dot_nodes_rec(ids.skip(1), Seq::empty()) + "\n  ]"@
    }
}

pub open spec fn dot_links_rec(es: Seq<DotEdgeView>, acc: Seq<char>) -> Seq<char>
    decreases es.len(),
{
    if es.len() == 0 {
        acc
    } else {
        dot_links_rec(es.skip(1), acc + ",\n"@ + dot_link_json(es[0]))
    }
}

pub open spec fn dot_links_json(es: Seq<DotEdgeView>) -> Seq<char> {
    if es.len() == 0 {
        "[]"@
    } else {
        "[\n"@ + dot_link_json(es[0]) + dot_links_rec(es.skip(1), Seq::empty()) + "\n  ]"@
    }
}

/// The whole JSON document of a converted graph description.
pub open spec fn dot_json_spec(ids: Seq<Seq<char>>, es: Seq<DotEdgeView>) -> Seq<char> {
    "{\n  \"nodes\": "@ + dot_nodes_json(ids) + ",\n  \"links\": "@ + dot_links_json(es) + "\n}"@
}

fn append_dot_node(out: &mut String, id: &String)
    ensures
        final(out)@ == old(out)@ + dot_node_json(id@),
{
    let ghost start = out@;
    out.append("    {\n      \"id\": ");
    crate::serializer::append_json_string(out, id.as_str());
    out.append(",\n      \"group\": 1\n    }");
    proof {
        assert(out@ =~= start + dot_node_json(id@));
    }
}

fn append_dot_link(out: &mut String, e: &DotEdge)
    ensures
        final(out)@ == old(out)@ + dot_link_json(e@),
{
    let ghost start = out@;
    out.append("    {\n      \"source\": ");
    crate::serializer::append_json_string(out, e.from.as_str());
    out.append(",\n      \"target\": ");
    crate::serializer::append_json_string(out, e.to.as_str());
    out.append(",\n      \"value\": 1\n    }");
    proof {
        assert(out@ =~= start + dot_link_json(e@));
    }
}

/// Renders a parsed graph description's nodes and edges as the plain
/// `{nodes, links}` JSON document, node groups and edge weights fixed at 1.
pub fn parse_dot_to_json(node_ids: &Vec<String>, edges: &Vec<DotEdge>) -> (r: String)
    ensures
        r@ == dot_json_spec(node_ids.deep_view(), edges.deep_view()),
{
    let ghost idv = node_ids.deep_view();
    let ghost edv = edges.deep_view();
    let mut out = String::new();
    out.append("{\n  \"nodes\": ");
    if node_ids.len() == 0 {
        out.append("[]");
    } else {
        out.append("[\n");
        append_dot_node(&mut out, &node_ids[0]);
        let ghost mut acc: Seq<char> = Seq::empty();
        let ghost base = out@;
        let mut k: usize = 1;
        while k < node_ids.len()
            invariant
                1 <= k <= node_ids.len(),
                idv == node_ids.deep_view(),
                out@ == base + acc,
                dot_nodes_rec(idv.skip(1), Seq::empty()) == dot_nodes_rec(idv.skip(k as int), acc),
            decreases node_ids.len() - k,
        {
            proof {
                assert(idv.skip(k as int).skip(1) =~= idv.skip(k as int + 1));
                assert(idv.skip(k as int)[0] == idv[k as int]);
            }
            out.append(",\n");
            append_dot_node(&mut out, &node_ids[k]);
            proof {
                acc = acc + ",\n"@ + dot_node_json(idv[k as int]);
                assert(out@ =~= base + acc);
            }
            k = k + 1;
        }
        proof {
            assert(idv.skip(idv.len() as int) =~= Seq::<Seq<char>>::empty());
        }
        out.append("\n  ]");
    }
    proof {
        assert(out@ =~= "{\n  \"nodes\": "@ + dot_nodes_json(idv));
    }
    out.append(",\n  \"links\": ");
    if edges.len() == 0 {
        out.append("[]");
    } else {
        out.append("[\n");
        append_dot_link(&mut out, &edges[0]);
        let ghost mut acc2: Seq<char> = Seq::empty();
        let ghost base2 = out@;
        let mut k: usize = 1;
        while k < edges.len()
            invariant
                1 <= k <= edges.len(),
                edv == edges.deep_view(),
                out@ == base2 + acc2,
                dot_links_rec(edv.skip(1), Seq::empty()) == dot_links_rec(edv.skip(k as int), acc2),
            decreases edges.len() - k,
        {
            proof {
                assert(edv.skip(k as int).skip(1) =~= edv.skip(k as int + 1));
                assert(edv.skip(k as int)[0] == edv[k as int]);
            }
            out.append(",\n");
            append_dot_link(&mut out, &edges[k]);
            proof {
                acc2 = acc2 + ",\n"@ + dot_link_json(edv[k as int]);
                assert(out@ =~= base2 + acc2);
            }
            k = k + 1;
        }
        proof {
            assert(edv.skip(edv.len() as int) =~= Seq::<DotEdgeView>::empty());
        }
        out.append("\n  ]");
    }
    out.append("\n}");
    proof {
        assert(out@ =~= dot_json_spec(idv, edv));
    }
    out
}

} // verus!
