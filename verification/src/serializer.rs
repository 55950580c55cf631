//! Rendering the finished graph as pretty-printed JSON — the sole output
//! artifact.  The shape is fixed: a `meta` member naming the semantics, then
//! `nodes` and `links` arrays in the collections' iteration order.  String
//! values are escaped (`"`, `\`, the named control escapes, `\u00XX` for
//! the rest); no semantic processing happens here.

use vstd::prelude::*;
use vstd::string::*;
use crate::graph::{Graph, GraphView, Node, NodeView, Link, LinkView, NodeKind};
use crate::text::{push_char, chars_to_string};

verus! {

pub open spec fn hex_digit(n: int) -> char {
    if n == 0 { '0' } else if n == 1 { '1' } else if n == 2 { '2' } else if n == 3 { '3' }
    else if n == 4 { '4' } else if n == 5 { '5' } else if n == 6 { '6' } else if n == 7 { '7' }
    else if n == 8 { '8' } else if n == 9 { '9' } else if n == 10 { 'a' } else if n == 11 { 'b' }
    else if n == 12 { 'c' } else if n == 13 { 'd' } else if n == 14 { 'e' } else { 'f' }
}

/// How one character renders inside a JSON string literal.
pub open spec fn escape_char(c: char) -> Seq<char> {
    if c == '"' { seq!['\\', '"'] }
    else if c == '\\' { seq!['\\', '\\'] }
    else if c == '\n' { seq!['\\', 'n'] }
    else if c == '\r' { seq!['\\', 'r'] }
    else if c == '\t' { seq!['\\', 't'] }
    else if (c as int) < 32 {
        seq!['\\', 'u', '0', '0', hex_digit((c as int) / 16), hex_digit((c as int) % 16)]
    } else {
        seq![c]
    }
}

pub open spec fn escape_rec(s: Seq<char>, acc: Seq<char>) -> Seq<char>
    decreases s.len(),
{
    if s.len() == 0 {
        acc
    } else {
        escape_rec(s.skip(1), acc + escape_char(s[0]))
    }
}

/// A whole text escaped for a JSON string literal.
pub open spec fn escape(s: Seq<char>) -> Seq<char> {
    escape_rec(s, Seq::empty())
}

/// A JSON string literal: quotes around the escaped text.
pub open spec fn json_string(s: Seq<char>) -> Seq<char> {
    seq!['"'] + escape(s) + seq!['"']
}

pub open spec fn digit_char(n: int) -> char {
    hex_digit(if 0 <= n < 10 { n } else { 0 })
}

/// The decimal rendering of a non-negative integer.
pub open spec fn dec_digits(n: int) -> Seq<char>
    decreases n,
{
    if n < 10 {
        seq![digit_char(n)]
    } else {
        dec_digits(n / 10).push(digit_char(n % 10))
    }
}

pub open spec fn kind_str(k: NodeKind) -> Seq<char> {
    match k {
        NodeKind::File => "file"@,
        NodeKind::Topic => "topic"@,
    }
}

pub open spec fn node_json(n: NodeView) -> Seq<char> {
    "    {\n      \"id\": "@ + json_string(n.id) + ",\n      \"title\": "@ + json_string(n.title)
        + ",\n      \"kind\": "@ + json_string(kind_str(n.kind)) + "\n    }"@
}

pub open spec fn link_json(l: LinkView) -> Seq<char> {
    "    {\n      \"source\": "@ + json_string(l.source) + ",\n      \"target\": "@ + json_string(
        l.target,
    ) + ",\n      \"value\": "@ + dec_digits(l.value as int) + "\n    }"@
}

pub open spec fn nodes_json_rec(ns: Seq<NodeView>, acc: Seq<char>) -> Seq<char>
    decreases ns.len(),
{
    if ns.len() == 0 {
        acc
    } else {
        nodes_json_rec(ns.skip(1), acc + ",\n"@ + node_json(ns[0]))
    }
}

/// The `nodes` array: `[]` when empty, else one indented object per node.
pub open spec fn nodes_json(ns: Seq<NodeView>) -> Seq<char> {
    if ns.len() == 0 {
        "[]"@
    } else {
        "[\n"@ + node_json(ns[0]) + nodes_json_rec(ns.skip(1), Seq::empty()) + "\n  ]"@
    }
}

pub open spec fn links_json_rec(ls: Seq<LinkView>, acc: Seq<char>) -> Seq<char>
    decreases ls.len(),
{
    if ls.len() == 0 {
        acc
    } else {
        links_json_rec(ls.skip(1), acc + ",\n"@ + link_json(ls[0]))
    }
}

pub open spec fn links_json(ls: Seq<LinkView>) -> Seq<char> {
    if ls.len() == 0 {
        "[]"@
    } else {
        "[\n"@ + link_json(ls[0]) + links_json_rec(ls.skip(1), Seq::empty()) + "\n  ]"@
    }
}

/// The whole output document.
pub open spec fn serialize_spec(g: GraphView) -> Seq<char> {
    "{\n  \"meta\": {\n    \"semantics\": \"markdown\"\n  },\n  \"nodes\": "@ + nodes_json(g.nodes)
        + ",\n  \"links\": "@ + links_json(g.links) + "\n}"@
}

// --- executable rendering ---

fn hex_digit_exec(n: u32) -> (r: char)
    ensures
        r == hex_digit(n as int),
{
    if n == 0 { '0' } else if n == 1 { '1' } else if n == 2 { '2' } else if n == 3 { '3' }
    else if n == 4 { '4' } else if n == 5 { '5' } else if n == 6 { '6' } else if n == 7 { '7' }
    else if n == 8 { '8' } else if n == 9 { '9' } else if n == 10 { 'a' } else if n == 11 { 'b' }
    else if n == 12 { 'c' } else if n == 13 { 'd' } else if n == 14 { 'e' } else { 'f' }
}

fn escape_char_exec(c: char) -> (r: Vec<char>)
    ensures
        r@ == escape_char(c),
{
    let mut out: Vec<char> = Vec::new();
    if c == '"' {
        out.push('\\');
        out.push('"');
    } else if c == '\\' {
        out.push('\\');
        out.push('\\');
    } else if c == '\n' {
        out.push('\\');
        out.push('n');
    } else if c == '\r' {
        out.push('\\');
        out.push('r');
    } else if c == '\t' {
        out.push('\\');
        out.push('t');
    } else if (c as u32) < 32 {
        out.push('\\');
        out.push('u');
        out.push('0');
        out.push('0');
        out.push(hex_digit_exec((c as u32) / 16));
        out.push(hex_digit_exec((c as u32) % 16));
    } else {
        out.push(c);
    }
    proof {
        assert(out@ =~= escape_char(c));
    }
    out
}

pub(crate) fn append_json_string(out: &mut String, s: &str)
    ensures
        final(out)@ == old(out)@ + json_string(s@),
{
    let ghost start = out@;
    push_char(out, '"');
    let n: usize = s.unicode_len();
    let mut i: usize = 0;
    let ghost mut esc: Seq<char> = Seq::empty();
    proof {
        assert(s@.skip(0) =~= s@);
        assert(out@ =~= start + seq!['"'] + esc);
    }
    while i < n
        invariant
            i <= n,
            n == s@.len(),
            out@ == start + seq!['"'] + esc,
            escape(s@) == escape_rec(s@.skip(i as int), esc),
        decreases n - i,
    {
        proof {
            assert(s@.skip(i as int).skip(1) =~= s@.skip(i as int + 1));
            assert(s@.skip(i as int)[0] == s@[i as int]);
        }
        let e = escape_char_exec(s.get_char(i));
        let es = chars_to_string(&e);
        out.append(es.as_str());
        proof {
            esc = esc + escape_char(s@[i as int]);
            assert(out@ =~= start + seq!['"'] + esc);
        }
        i = i + 1;
    }
    proof {
        assert(s@.skip(n as int) =~= Seq::<char>::empty());
    }
    push_char(out, '"');
    proof {
        assert(out@ =~= start + json_string(s@));
    }
}

fn append_dec(out: &mut String, n: u32)
    ensures
        final(out)@ == old(out)@ + dec_digits(n as int),
    decreases n,
{
    if n < 10 {
        push_char(out, hex_digit_exec(n));
        proof {
            assert(old(out)@.push(hex_digit(n as int)) =~= old(out)@ + dec_digits(n as int));
        }
    } else {
        append_dec(out, n / 10);
        push_char(out, hex_digit_exec(n % 10));
        proof {
            assert(old(out)@ + dec_digits((n / 10) as int) + seq![digit_char((n % 10) as int)]
                =~= old(out)@ + dec_digits(n as int));
        }
    }
}

fn append_node_json(out: &mut String, n: &Node)
    ensures
        final(out)@ == old(out)@ + node_json(n@),
{
    let ghost start = out@;
    out.append("    {\n      \"id\": ");
    append_json_string(out, n.id.as_str());
    out.append(",\n      \"title\": ");
    append_json_string(out, n.title.as_str());
    out.append(",\n      \"kind\": ");
    match n.kind {
        NodeKind::File => append_json_string(out, "file"),
        NodeKind::Topic => append_json_string(out, "topic"),
    }
    out.append("\n    }");
    proof {
        assert(out@ =~= start + node_json(n@));
    }
}

fn append_link_json(out: &mut String, l: &Link)
    ensures
        final(out)@ == old(out)@ + link_json(l@),
{
    let ghost start = out@;
    out.append("    {\n      \"source\": ");
    append_json_string(out, l.source.as_str());
    out.append(",\n      \"target\": ");
    append_json_string(out, l.target.as_str());
    out.append(",\n      \"value\": ");
    append_dec(out, l.value);
    out.append("\n    }");
    proof {
        assert(out@ =~= start + link_json(l@));
    }
}

fn append_nodes_json(out: &mut String, ns: &Vec<Node>)
    ensures
        final(out)@ == old(out)@ + nodes_json(ns.deep_view()),
{
    let ghost start = out@;
    let ghost dv = ns.deep_view();
    if ns.len() == 0 {
        out.append("[]");
        proof {
            assert(out@ =~= start + nodes_json(dv));
        }
        return;
    }
    out.append("[\n");
    append_node_json(out, &ns[0]);
    let ghost mut acc: Seq<char> = Seq::empty();
    let mut k: usize = 1;
    proof {
        assert(out@ =~= start + "[\n"@ + node_json(dv[0]) + acc);
    }
    while k < ns.len()
        invariant
            1 <= k <= ns.len(),
            dv == ns.deep_view(),
            out@ == start + "[\n"@ + node_json(dv[0]) + acc,
            nodes_json_rec(dv.skip(1), Seq::empty()) == nodes_json_rec(dv.skip(k as int), acc),
        decreases ns.len() - k,
    {
        proof {
            assert(dv.skip(k as int).skip(1) =~= dv.skip(k as int + 1));
            assert(dv.skip(k as int)[0] == dv[k as int]);
        }
        out.append(",\n");
        append_node_json(out, &ns[k]);
        proof {
            acc = acc + ",\n"@ + node_json(dv[k as int]);
            assert(out@ =~= start + "[\n"@ + node_json(dv[0]) + acc);
        }
        k = k + 1;
    }
    proof {
        assert(dv.skip(dv.len() as int) =~= Seq::<NodeView>::empty());
    }
    out.append("\n  ]");
    proof {
        assert(out@ =~= start + nodes_json(dv));
    }
}

fn append_links_json(out: &mut String, ls: &Vec<Link>)
    ensures
        final(out)@ == old(out)@ + links_json(ls.deep_view()),
{
    let ghost start = out@;
    let ghost dv = ls.deep_view();
    if ls.len() == 0 {
        out.append("[]");
        proof {
            assert(out@ =~= start + links_json(dv));
        }
        return;
    }
    out.append("[\n");
    append_link_json(out, &ls[0]);
    let ghost mut acc: Seq<char> = Seq::empty();
    let mut k: usize = 1;
    proof {
        assert(out@ =~= start + "[\n"@ + link_json(dv[0]) + acc);
    }
    while k < ls.len()
        invariant
            1 <= k <= ls.len(),
            dv == ls.deep_view(),
            out@ == start + "[\n"@ + link_json(dv[0]) + acc,
            links_json_rec(dv.skip(1), Seq::empty()) == links_json_rec(dv.skip(k as int), acc),
        decreases ls.len() - k,
    {
        proof {
            assert(dv.skip(k as int).skip(1) =~= dv.skip(k as int + 1));
            assert(dv.skip(k as int)[0] == dv[k as int]);
        }
        out.append(",\n");
        append_link_json(out, &ls[k]);
        proof {
            acc = acc + ",\n"@ + link_json(dv[k as int]);
            assert(out@ =~= start + "[\n"@ + link_json(dv[0]) + acc);
        }
        k = k + 1;
    }
    proof {
        assert(dv.skip(dv.len() as int) =~= Seq::<LinkView>::empty());
    }
    out.append("\n  ]");
    proof {
        assert(out@ =~= start + links_json(dv));
    }
}

/// Renders the graph as the fixed, pretty-printed JSON document.
pub fn serialize(g: &Graph) -> (r: String)
    ensures
        r@ == serialize_spec(g@),
{
    let mut out = String::new();
    out.append("{\n  \"meta\": {\n    \"semantics\": \"markdown\"\n  },\n  \"nodes\": ");
    append_nodes_json(&mut out, &g.nodes);
    out.append(",\n  \"links\": ");
    append_links_json(&mut out, &g.links);
    out.append("\n}");
    proof {
        assert(out@ =~= serialize_spec(g@));
    }
    out
}

} // verus!
