use nexus_odyssey::resolver::resolve;

fn mapping(tags: &[&str]) -> Vec<(String, String)> {
    let owned: Vec<String> = tags.iter().map(|s| s.to_string()).collect();
    resolve(&owned).into_iter().map(|e| (e.tag, e.path)).collect()
}

#[test]
fn prefix_merge_nests_under_known_paths() {
    let m = mapping(&["lang", "lang/rust", "rust/ownership"]);
    assert_eq!(m, vec![
        ("lang".to_string(), "/lang".to_string()),
        ("lang/rust".to_string(), "/lang/rust".to_string()),
        ("rust/ownership".to_string(), "/lang/rust/ownership".to_string()),
    ]);
}

#[test]
fn unrelated_tags_become_top_level() {
    let m = mapping(&["alpha", "beta/gamma"]);
    assert_eq!(m, vec![
        ("alpha".to_string(), "/alpha".to_string()),
        ("beta/gamma".to_string(), "/beta/gamma".to_string()),
    ]);
}

#[test]
fn shortest_tags_are_processed_first() {
    // given in the "wrong" order, the shorter tag still resolves first
    let m = mapping(&["rust/ownership", "lang/rust", "lang"]);
    assert_eq!(m, vec![
        ("lang".to_string(), "/lang".to_string()),
        ("lang/rust".to_string(), "/lang/rust".to_string()),
        ("rust/ownership".to_string(), "/lang/rust/ownership".to_string()),
    ]);
}

#[test]
fn duplicates_resolve_once() {
    let m = mapping(&["a", "a", "a/b", "a"]);
    assert_eq!(m, vec![
        ("a".to_string(), "/a".to_string()),
        ("a/b".to_string(), "/a/b".to_string()),
    ]);
}

#[test]
fn repeated_slashes_collapse() {
    let m = mapping(&["/a//b"]);
    assert_eq!(m, vec![("/a//b".to_string(), "/a/b".to_string())]);
}

#[test]
fn exact_suffix_match_reuses_the_whole_path() {
    // "rust" is itself the tail of an already-resolved path
    let m = mapping(&["lang/rust", "rust"]);
    assert_eq!(m, vec![
        ("rust".to_string(), "/rust".to_string()),
        ("lang/rust".to_string(), "/lang/rust".to_string()),
    ]);
}

#[test]
fn character_suffix_does_not_cross_segment_boundaries() {
    // "b/c" must not nest under "ab/c": "b" is not the segment "ab"
    let m = mapping(&["ab/c", "ab/c/d"]);
    assert_eq!(m, vec![
        ("ab/c".to_string(), "/ab/c".to_string()),
        ("ab/c/d".to_string(), "/ab/c/d".to_string()),
    ]);
    let m2 = mapping(&["xab", "b/c"]);
    assert_eq!(m2, vec![
        ("xab".to_string(), "/xab".to_string()),
        ("b/c".to_string(), "/b/c".to_string()),
    ]);
}

#[test]
fn resolution_is_total_for_degenerate_tags() {
    let m = mapping(&["///"]);
    assert_eq!(m, vec![("///".to_string(), "".to_string())]);
}

#[test]
fn first_recorded_entry_wins_among_suffix_candidates() {
    // two entries end in "rust"; the one recorded first captures the nesting
    let m = mapping(&["x/rust", "y/rust", "rust/own"]);
    assert_eq!(m, vec![
        ("x/rust".to_string(), "/x/rust".to_string()),
        ("y/rust".to_string(), "/y/rust".to_string()),
        ("rust/own".to_string(), "/x/rust/own".to_string()),
    ]);
}
