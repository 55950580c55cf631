use nexus_odyssey::front_matter::{extract, RawTags};
use nexus_odyssey::tags::normalize;
use nexus_odyssey::document::create_title;

#[test]
fn no_front_matter_yields_defaults() {
    let fm = extract("# Heading\nplain body text\n");
    assert!(fm.title.is_none());
    assert!(matches!(fm.tags, RawTags::Absent));
    assert!(!fm.ignore);
}

#[test]
fn empty_document_yields_defaults() {
    let fm = extract("");
    assert!(fm.title.is_none());
    assert!(matches!(fm.tags, RawTags::Absent));
    assert!(!fm.ignore);
}

#[test]
fn unterminated_block_yields_defaults() {
    let fm = extract("---\ntitle: Lost\ntags: [a]\nno closing fence\n");
    assert!(fm.title.is_none());
    assert!(matches!(fm.tags, RawTags::Absent));
    assert!(!fm.ignore);
}

#[test]
fn title_is_read() {
    let fm = extract("---\ntitle: Alpha\n---\nbody\n");
    assert_eq!(fm.title.as_deref(), Some("Alpha"));
}

#[test]
fn quoted_title_is_unquoted() {
    let fm = extract("---\ntitle: \"Quoted Name\"\n---\n");
    assert_eq!(fm.title.as_deref(), Some("Quoted Name"));
    let fm2 = extract("---\ntitle: 'Single'\n---\n");
    assert_eq!(fm2.title.as_deref(), Some("Single"));
}

#[test]
fn crlf_lines_are_handled() {
    let fm = extract("---\r\ntitle: Windows\r\n---\r\nbody\r\n");
    assert_eq!(fm.title.as_deref(), Some("Windows"));
}

#[test]
fn tags_single_string_shape() {
    let fm = extract("---\ntags: compiler/warnings rust\n---\n");
    match &fm.tags {
        RawTags::Single(s) => assert_eq!(s, "compiler/warnings rust"),
        other => panic!("expected a single string, got {:?}", other),
    }
}

#[test]
fn tags_inline_list_shape() {
    let fm = extract("---\ntags: [a/b, c , \"d\"]\n---\n");
    match &fm.tags {
        RawTags::Many(items) => {
            assert_eq!(items.len(), 3);
            assert_eq!(items[0], "a/b");
            assert_eq!(items[1], "c");
            assert_eq!(items[2], "d");
        }
        other => panic!("expected a list, got {:?}", other),
    }
}

#[test]
fn bare_tags_line_opens_an_empty_list() {
    let fm = extract("---\ntags:\n---\n");
    match &fm.tags {
        RawTags::Many(items) => assert!(items.is_empty()),
        other => panic!("expected an empty list, got {:?}", other),
    }
}

#[test]
fn tags_block_sequence_shape() {
    let fm = extract("---\ntitle: T\ntags:\n- a/b\n-   C\n- \"quoted\"\nignore: false\n---\n");
    match &fm.tags {
        RawTags::Many(items) => {
            assert_eq!(items.len(), 3);
            assert_eq!(items[0], "a/b");
            assert_eq!(items[1], "C");
            assert_eq!(items[2], "quoted");
        }
        other => panic!("expected a list, got {:?}", other),
    }
    assert_eq!(fm.title.as_deref(), Some("T"));
    assert!(!fm.ignore);
}

#[test]
fn dash_lines_outside_a_tags_block_are_skipped() {
    let fm = extract("---\n- stray\ntitle: Kept\n---\n");
    assert_eq!(fm.title.as_deref(), Some("Kept"));
    assert!(matches!(fm.tags, RawTags::Absent));
}

#[test]
fn ignore_flag_reads_true_only() {
    let fm = extract("---\nignore: true\n---\n");
    assert!(fm.ignore);
    let fm2 = extract("---\nignore: yes\n---\n");
    assert!(!fm2.ignore);
    let fm3 = extract("---\ntitle: X\n---\n");
    assert!(!fm3.ignore);
}

#[test]
fn unknown_keys_are_skipped() {
    let fm = extract("---\nauthor: someone\ntitle: Kept\ndate: 2020-01-01\n---\n");
    assert_eq!(fm.title.as_deref(), Some("Kept"));
    assert!(matches!(fm.tags, RawTags::Absent));
}

#[test]
fn normalize_absent_is_empty() {
    let r = normalize(&RawTags::Absent);
    assert!(r.is_empty());
}

#[test]
fn normalize_single_splits_trims_lowers_drops() {
    let r = normalize(&RawTags::Single("  Lang/Rust   OWNERSHIP  ".to_string()));
    assert_eq!(r, vec!["lang/rust".to_string(), "ownership".to_string()]);
}

#[test]
fn normalize_many_trims_lowers_drops_empties() {
    let r = normalize(&RawTags::Many(vec![
        " X/Y ".to_string(),
        "".to_string(),
        "   ".to_string(),
        "MiXeD".to_string(),
    ]));
    assert_eq!(r, vec!["x/y".to_string(), "mixed".to_string()]);
}

#[test]
fn title_from_file_name() {
    assert_eq!(create_title("notes/readme.md", None), "readme");
    assert_eq!(create_title("a/b/archive.tar.gz", None), "archive.tar");
    assert_eq!(create_title("plain", None), "plain");
}

#[test]
fn title_prefers_front_matter() {
    assert_eq!(create_title("x/y.md", Some("Chosen".to_string())), "Chosen");
}

#[test]
fn title_placeholder_when_no_file_name() {
    assert_eq!(create_title("", None), "<unnamed>");
    assert_eq!(create_title("dir/", None), "<unnamed>");
}

#[test]
fn hidden_file_keeps_its_name() {
    assert_eq!(create_title(".hidden", None), ".hidden");
}
