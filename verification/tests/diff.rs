use docli::diff::semantic_diff;
use docli::index::{DocumentIndex, ParagraphEntry};

fn make_index(texts: &[&str]) -> DocumentIndex {
    let mut index = DocumentIndex::empty();
    index.paragraphs = texts
        .iter()
        .enumerate()
        .map(|(i, t)| ParagraphEntry { index: i, style: None, text: t.to_string(), para_id: None, byte_offset: 0, byte_end: 0 })
        .collect();
    index
}

#[test]
fn test_identical_documents() {
    let a = make_index(&["Hello", "World"]);
    let b = make_index(&["Hello", "World"]);
    let result = semantic_diff(&a, &b);
    assert_eq!(result.summary.insertions, 0);
    assert_eq!(result.summary.deletions, 0);
    assert!(result.summary.unchanged > 0);
}

#[test]
fn test_with_insertions() {
    let a = make_index(&["Hello", "World"]);
    let b = make_index(&["Hello", "Beautiful", "World"]);
    let result = semantic_diff(&a, &b);
    assert!(result.summary.insertions > 0);
}

#[test]
fn test_with_deletions() {
    let a = make_index(&["Hello", "Beautiful", "World"]);
    let b = make_index(&["Hello", "World"]);
    let result = semantic_diff(&a, &b);
    assert!(result.summary.deletions > 0);
}

#[test]
fn test_empty_documents() {
    let a = make_index(&[]);
    let b = make_index(&[]);
    let result = semantic_diff(&a, &b);
    assert_eq!(result.summary.insertions, 0);
    assert_eq!(result.summary.deletions, 0);
}

#[test]
fn counts_add_up_to_the_changes() {
    let a = make_index(&["a", "b", "c"]);
    let b = make_index(&["a", "x", "c"]);
    let result = semantic_diff(&a, &b);
    let s = &result.summary;
    assert_eq!(s.insertions + s.deletions + s.unchanged, result.changes.len());
    assert_eq!((s.insertions, s.deletions, s.unchanged), (1, 1, 2));
    assert_eq!(result.changes[1].tag, "delete");
    assert_eq!(result.changes[1].value, "b\n");
    assert_eq!(result.changes[1].old_index, Some(1));
}

#[test]
fn appending_a_paragraph_is_one_insertion() {
    let old = make_index(&["A", "B"]);
    let new = make_index(&["A", "B", "C"]);
    let s = semantic_diff(&old, &new).summary;
    assert_eq!((s.insertions, s.deletions, s.unchanged), (1, 0, 2));
}
