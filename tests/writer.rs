use libninja_core::reclaim::{has_source_extension, remove_old_files, Candidate};
use libninja_core::writer::{merge, write_with_content, Modified, AFTER_MARKER, STATIC_MARKER};

#[test]
fn fresh_file_gets_rendered_text() {
    assert_eq!(merge("", "struct A;\n"), Some("struct A;\n".to_string()));
}

#[test]
fn unmarked_file_is_replaced() {
    assert_eq!(merge("old text\n", "new text\n"), Some("new text\n".to_string()));
}

#[test]
fn static_file_is_left_alone() {
    let existing = "// libninja: static\nfn mine() {}\n";
    assert_eq!(merge(existing, "generated\n"), None);
}

#[test]
fn static_wins_over_after_marker() {
    let existing = "// libninja: after\nx\n// libninja: static\n";
    assert_eq!(merge(existing, "generated\n"), None);
}

#[test]
fn after_marker_suffix_is_preserved() {
    let existing = "pub struct User {}\n// libninja: after\n// custom\nfn custom() {}";
    let code = "pub struct User {}\npub struct Pet {}\n// ";
    let out = merge(existing, code).unwrap();
    assert_eq!(out, "pub struct User {}\npub struct Pet {}\n// libninja: after\n// custom\nfn custom() {}");
}

#[test]
fn after_marker_first_occurrence_splits() {
    let existing = "a libninja: after b libninja: after c";
    assert_eq!(merge(existing, "X "), Some("X libninja: after b libninja: after c".to_string()));
}

#[test]
fn second_write_is_idempotent() {
    let existing = "old\n// libninja: after\n// custom\nfn custom() {}";
    let code = "new\n// ";
    let first = merge(existing, code).unwrap();
    let second = merge(&first, code).unwrap();
    assert_eq!(first, second);
    let fresh = merge("", code).unwrap();
    assert_eq!(merge(&fresh, code).unwrap(), fresh);
}

#[test]
fn marker_texts() {
    assert_eq!(STATIC_MARKER, "libninja: static");
    assert_eq!(AFTER_MARKER, "libninja: after");
}

#[test]
fn write_records_path_even_when_protected() {
    let mut m = Modified::new();
    let r = write_with_content("out/src/a.rs", "x", "libninja: static", &mut m);
    assert_eq!(r, None);
    assert!(m.contains("out/src/a.rs"));
    let r = write_with_content("out/src/b.rs", "y", "", &mut m);
    assert_eq!(r, Some("y".to_string()));
    assert!(m.contains("out/src/b.rs"));
    assert!(!m.contains("out/src/c.rs"));
    assert_eq!(m.paths().len(), 2);
}

#[test]
fn modified_insert_twice_keeps_one() {
    let mut m = Modified::new();
    m.insert("p.rs");
    m.insert("p.rs");
    assert_eq!(m.paths(), vec!["p.rs".to_string()]);
}

#[test]
fn source_extension() {
    assert!(has_source_extension("out/src/lib.rs"));
    assert!(has_source_extension("a.rs"));
    assert!(!has_source_extension(".rs"));
    assert!(!has_source_extension("out/src/.rs"));
    assert!(!has_source_extension("out/src/lib.rsx"));
    assert!(!has_source_extension("out/src/notes.txt"));
    assert!(!has_source_extension(""));
}

fn cand(path: &str, content: Option<&str>) -> Candidate {
    Candidate { path: path.to_string(), content: content.map(|c| c.to_string()) }
}

#[test]
fn stale_file_is_reclaimed_once() {
    let mut m = Modified::new();
    m.insert("out/src/lib.rs");
    let cands = vec![
        cand("out/src/lib.rs", Some("x")),
        cand("out/src/old.rs", Some("pub struct Old;")),
        cand("out/src/kept.rs", Some("// libninja: static")),
        cand("out/src/gone.rs", None),
        cand("out/src/readme.md", Some("text")),
        cand("out/examples/ex.rs", Some("fn main() {}")),
    ];
    let r = remove_old_files(&cands, &m);
    assert_eq!(r, vec!["out/src/old.rs".to_string(), "out/examples/ex.rs".to_string()]);
}

#[test]
fn nothing_stale_when_all_touched() {
    let mut m = Modified::new();
    m.insert("a.rs");
    let r = remove_old_files(&vec![cand("a.rs", Some("x"))], &m);
    assert!(r.is_empty());
}
