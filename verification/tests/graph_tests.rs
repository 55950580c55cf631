use std::collections::HashSet;
use nexus_odyssey::document::DocumentMeta;
use nexus_odyssey::graph::{build_graph, Node, Link, NodeKind};
use nexus_odyssey::scanner::Scanner;

fn doc(title: &str, path: &str, tags: &[&str], ignore: bool) -> DocumentMeta {
    DocumentMeta {
        title: title.to_string(),
        file_path: path.to_string(),
        tags: tags.iter().map(|t| t.to_string()).collect(),
        ignore,
    }
}

fn node(id: &str, title: &str, kind: NodeKind) -> Node {
    Node { id: id.to_string(), title: title.to_string(), kind }
}

fn link(source: &str, target: &str, value: u32) -> Link {
    Link { source: source.to_string(), target: target.to_string(), value }
}

#[test]
fn end_to_end_two_documents() {
    let mut scanner = Scanner::new(".", &Vec::new());
    scanner.accept("a.md", "---\ntitle: Alpha\ntags: [x/y]\n---\nbody\n");
    scanner.accept("b.md", "---\ntags: [x/y/z]\nignore: true\n---\nbody\n");
    let g = build_graph(scanner.documents());

    let nodes: HashSet<Node> = g.nodes.iter().cloned().collect();
    let expected_nodes: HashSet<Node> = vec![
        node("a.md", "Alpha", NodeKind::File),
        node("/x", "x", NodeKind::Topic),
        node("/x/y", "y", NodeKind::Topic),
        node("/x/y/z", "z", NodeKind::Topic),
    ]
    .into_iter()
    .collect();
    assert_eq!(nodes, expected_nodes);

    let links: HashSet<Link> = g.links.iter().cloned().collect();
    let expected_links: HashSet<Link> = vec![
        link("/x", "/x/y", 5),
        link("/x/y", "/x/y/z", 5),
        link("a.md", "/x/y", 2),
    ]
    .into_iter()
    .collect();
    assert_eq!(links, expected_links);
}

#[test]
fn document_without_metadata_still_becomes_a_node() {
    let mut scanner = Scanner::new(".", &Vec::new());
    scanner.accept("notes/readme.md", "# Heading\njust text\n");
    let docs = scanner.documents();
    assert_eq!(docs.len(), 1);
    assert_eq!(docs[0].title, "readme");
    assert!(docs[0].tags.is_empty());
    assert!(!docs[0].ignore);
    let g = build_graph(docs);
    assert_eq!(g.nodes.len(), 1);
    assert_eq!(g.nodes[0], node("notes/readme.md", "readme", NodeKind::File));
    assert!(g.links.is_empty());
}

#[test]
fn ignored_document_contributes_topics_but_no_file_node() {
    let g = build_graph(vec![doc("Meta", "index.md", &["x/y"], true)]);
    for n in &g.nodes {
        assert!(n.kind == NodeKind::Topic, "unexpected file node {:?}", n);
        assert_ne!(n.id, "index.md");
    }
    for l in &g.links {
        assert_ne!(l.source, "index.md");
        assert_eq!(l.value, 5);
    }
    let ids: HashSet<&str> = g.nodes.iter().map(|n| n.id.as_str()).collect();
    assert!(ids.contains("/x"));
    assert!(ids.contains("/x/y"));
    let links: HashSet<Link> = g.links.iter().cloned().collect();
    assert_eq!(links, vec![link("/x", "/x/y", 5)].into_iter().collect());
}

#[test]
fn building_twice_yields_equal_sets() {
    let docs = vec![
        doc("A", "a.md", &["t/u", "v"], false),
        doc("B", "b.md", &["t/u/w"], true),
        doc("C", "c.md", &["v", "t"], false),
    ];
    let g1 = build_graph(docs.clone());
    let g2 = build_graph(docs);
    let n1: HashSet<Node> = g1.nodes.into_iter().collect();
    let n2: HashSet<Node> = g2.nodes.into_iter().collect();
    let l1: HashSet<Link> = g1.links.into_iter().collect();
    let l2: HashSet<Link> = g2.links.into_iter().collect();
    assert_eq!(n1, n2);
    assert_eq!(l1, l2);
}

#[test]
fn no_conflicting_duplicates() {
    let docs = vec![
        doc("A", "a.md", &["lang", "lang/rust"], false),
        doc("B", "b.md", &["lang/rust", "rust/ownership"], false),
        doc("C", "c.md", &["lang"], true),
    ];
    let g = build_graph(docs);
    // full-value dedup
    for i in 0..g.nodes.len() {
        for j in (i + 1)..g.nodes.len() {
            assert_ne!(g.nodes[i], g.nodes[j]);
        }
    }
    for i in 0..g.links.len() {
        for j in (i + 1)..g.links.len() {
            assert_ne!(g.links[i], g.links[j]);
        }
    }
    // no (id, kind) pair with two titles, no (source, target) with two values
    for a in &g.nodes {
        for b in &g.nodes {
            if a.id == b.id && a.kind == b.kind {
                assert_eq!(a.title, b.title);
            }
        }
    }
    for a in &g.links {
        for b in &g.links {
            if a.source == b.source && a.target == b.target {
                assert_eq!(a.value, b.value);
            }
        }
    }
}

#[test]
fn scan_cap_limits_collection_to_fifty() {
    let mut scanner = Scanner::new(".", &Vec::new());
    let mut offered: usize = 0;
    for i in 0..200 {
        let path = format!("doc{}.md", i);
        if scanner.should_read(&path) {
            offered += 1;
            scanner.accept(&path, "---\ntitle: T\n---\n");
        }
    }
    assert_eq!(offered, 50);
    let docs = scanner.documents();
    assert_eq!(docs.len(), 50);
}

#[test]
fn should_read_selects_markdown_only() {
    let scanner = Scanner::new(".", &Vec::new());
    assert!(scanner.should_read("a.md"));
    assert!(scanner.should_read("dir/sub/b.md"));
    assert!(!scanner.should_read("c.txt"));
    assert!(!scanner.should_read("md"));
    assert!(!scanner.should_read(".md"));
    assert!(!scanner.should_read("dir/"));
}

#[test]
fn ignore_patterns_exclude_files() {
    let patterns = vec!["ignored.md".to_string(), "drafts/*".to_string()];
    let scanner = Scanner::new(".", &patterns);
    assert!(!scanner.should_read("ignored.md"));
    assert!(!scanner.should_read("drafts/wip.md"));
    assert!(scanner.should_read("kept.md"));
}

#[test]
fn tags_of_ignored_and_kept_documents_merge() {
    let mut scanner = Scanner::new(".", &Vec::new());
    scanner.accept("a.md", "---\ntags: [lang]\n---\n");
    scanner.accept("b.md", "---\ntags: [lang/rust]\nignore: true\n---\n");
    let g = build_graph(scanner.documents());
    let ids: HashSet<&str> = g.nodes.iter().map(|n| n.id.as_str()).collect();
    assert!(ids.contains("/lang"));
    assert!(ids.contains("/lang/rust"));
    let links: HashSet<Link> = g.links.iter().cloned().collect();
    assert!(links.contains(&link("/lang", "/lang/rust", 5)));
    assert!(links.contains(&link("a.md", "/lang", 2)));
    assert_eq!(links.len(), 2);
}
