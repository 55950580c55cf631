use nexus_odyssey::analyze_documents;
use nexus_odyssey::document::DocumentMeta;
use nexus_odyssey::dot::{parse_dot_to_json, DotEdge};
use nexus_odyssey::graph::{Graph, Node, Link, NodeKind};
use nexus_odyssey::serializer::serialize;

#[test]
fn empty_graph_renders_fixed_shape() {
    let g = Graph { nodes: Vec::new(), links: Vec::new() };
    let s = serialize(&g);
    assert_eq!(
        s,
        "{\n  \"meta\": {\n    \"semantics\": \"markdown\"\n  },\n  \"nodes\": [],\n  \"links\": []\n}"
    );
}

#[test]
fn one_node_one_link_exact_output() {
    let g = Graph {
        nodes: vec![Node {
            id: "a".to_string(),
            title: "A".to_string(),
            kind: NodeKind::File,
        }],
        links: vec![Link {
            source: "a".to_string(),
            target: "/x".to_string(),
            value: 2,
        }],
    };
    let s = serialize(&g);
    let expected = "{\n  \"meta\": {\n    \"semantics\": \"markdown\"\n  },\n  \"nodes\": [\n    {\n      \"id\": \"a\",\n      \"title\": \"A\",\n      \"kind\": \"file\"\n    }\n  ],\n  \"links\": [\n    {\n      \"source\": \"a\",\n      \"target\": \"/x\",\n      \"value\": 2\n    }\n  ]\n}";
    assert_eq!(s, expected);
}

#[test]
fn output_is_valid_json_with_escapes() {
    let g = Graph {
        nodes: vec![Node {
            id: "we\"ird\\name\n.md".to_string(),
            title: "tab\there".to_string(),
            kind: NodeKind::Topic,
        }],
        links: Vec::new(),
    };
    let s = serialize(&g);
    let v: serde_json::Value = serde_json::from_str(&s).expect("output must parse as JSON");
    assert_eq!(v["nodes"][0]["id"].as_str(), Some("we\"ird\\name\n.md"));
    assert_eq!(v["nodes"][0]["title"].as_str(), Some("tab\there"));
    assert_eq!(v["nodes"][0]["kind"].as_str(), Some("topic"));
    assert_eq!(v["meta"]["semantics"].as_str(), Some("markdown"));
}

#[test]
fn link_values_render_in_decimal() {
    let g = Graph {
        nodes: Vec::new(),
        links: vec![Link {
            source: "s".to_string(),
            target: "t".to_string(),
            value: 1234567890,
        }],
    };
    let s = serialize(&g);
    let v: serde_json::Value = serde_json::from_str(&s).expect("valid JSON");
    assert_eq!(v["links"][0]["value"].as_u64(), Some(1234567890));
}

#[test]
fn analyze_documents_end_to_end() {
    let docs = vec![DocumentMeta {
        title: "Alpha".to_string(),
        file_path: "a.md".to_string(),
        tags: vec!["x/y".to_string()],
        ignore: false,
    }];
    let s = analyze_documents(docs);
    let v: serde_json::Value = serde_json::from_str(&s).expect("valid JSON");
    let nodes = v["nodes"].as_array().expect("nodes array");
    let mut seen: Vec<(String, String, String)> = nodes
        .iter()
        .map(|n| {
            (
                n["id"].as_str().unwrap().to_string(),
                n["title"].as_str().unwrap().to_string(),
                n["kind"].as_str().unwrap().to_string(),
            )
        })
        .collect();
    seen.sort();
    assert_eq!(seen, vec![
        ("/x".to_string(), "x".to_string(), "topic".to_string()),
        ("/x/y".to_string(), "y".to_string(), "topic".to_string()),
        ("a.md".to_string(), "Alpha".to_string(), "file".to_string()),
    ]);
    let links = v["links"].as_array().expect("links array");
    let mut ls: Vec<(String, String, u64)> = links
        .iter()
        .map(|l| {
            (
                l["source"].as_str().unwrap().to_string(),
                l["target"].as_str().unwrap().to_string(),
                l["value"].as_u64().unwrap(),
            )
        })
        .collect();
    ls.sort();
    assert_eq!(ls, vec![
        ("/x".to_string(), "/x/y".to_string(), 5),
        ("a.md".to_string(), "/x/y".to_string(), 2),
    ]);
}

#[test]
fn dot_conversion_exact_output() {
    let ids = vec!["n1".to_string(), "n2".to_string()];
    let edges = vec![DotEdge { from: "n1".to_string(), to: "n2".to_string() }];
    let s = parse_dot_to_json(&ids, &edges);
    let expected = "{\n  \"nodes\": [\n    {\n      \"id\": \"n1\",\n      \"group\": 1\n    },\n    {\n      \"id\": \"n2\",\n      \"group\": 1\n    }\n  ],\n  \"links\": [\n    {\n      \"source\": \"n1\",\n      \"target\": \"n2\",\n      \"value\": 1\n    }\n  ]\n}";
    assert_eq!(s, expected);
}

#[test]
fn dot_conversion_empty_sets() {
    let s = parse_dot_to_json(&Vec::new(), &Vec::new());
    assert_eq!(s, "{\n  \"nodes\": [],\n  \"links\": []\n}");
    let v: serde_json::Value = serde_json::from_str(&s).expect("valid JSON");
    assert!(v["nodes"].as_array().unwrap().is_empty());
    assert!(v["links"].as_array().unwrap().is_empty());
}
