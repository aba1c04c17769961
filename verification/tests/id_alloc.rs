use std::collections::HashSet;

use docli::id_alloc::IdAllocator;
use docli::package::{Package, PartInventory, XmlPart};

fn make_allocator(ids: &[u64]) -> IdAllocator {
    IdAllocator::from_ids(&ids.to_vec())
}

#[test]
fn next_returns_sequential_ids() {
    let mut alloc = make_allocator(&[]);
    assert_eq!(alloc.next(), 1);
    assert_eq!(alloc.next(), 2);
    assert_eq!(alloc.next(), 3);
}

#[test]
fn next_skips_used_ids() {
    let mut alloc = make_allocator(&[1, 2, 3, 5]);
    assert_eq!(alloc.next(), 6);
    assert_eq!(alloc.next(), 7);
}

#[test]
fn next_fills_gap_if_forced() {
    let mut alloc = IdAllocator::with_state(HashSet::from([1, 3]), 2);
    assert_eq!(alloc.next(), 2);
    assert_eq!(alloc.next(), 4);
}

fn package_with(parts: &[(&str, &str)]) -> Package {
    Package {
        path: "test.docx".to_string(),
        source_hash: String::new(),
        inventory: PartInventory { entries: Vec::new() },
        xml_parts: parts
            .iter()
            .map(|(p, x)| XmlPart { path: p.to_string(), bytes: x.as_bytes().to_vec() })
            .collect(),
        binary_parts: Vec::new(),
    }
}

#[test]
fn from_package_collects_ids_and_relationship_numbers() {
    let pkg = package_with(&[
        ("word/document.xml", r#"<w:document xmlns:w="w"><w:ins w:id="4"/><w:commentReference w:commentId="9"/></w:document>"#),
        ("word/_rels/document.xml.rels", r#"<Relationships><Relationship Id="rId12" Target="x"/></Relationships>"#),
    ]);
    let mut alloc = IdAllocator::from_package(&pkg);
    // The largest id found is 12 (from rId12), so allocation starts at 13.
    assert_eq!(alloc.next(), 13);
}

#[test]
fn from_package_ignores_unparsable_parts() {
    let pkg = package_with(&[("word/document.xml", "<w:document w:id=\"50\"")]);
    let mut alloc = IdAllocator::from_package(&pkg);
    assert_eq!(alloc.next(), 1);
}

#[test]
fn allocated_ids_never_repeat() {
    let mut alloc = IdAllocator::with_state(HashSet::from([2, 3, 5]), 1);
    let a = alloc.next();
    let b = alloc.next();
    let c = alloc.next();
    assert_eq!((a, b, c), (1, 4, 6));
}
