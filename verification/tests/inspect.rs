use docli::index::DocumentIndex;
use docli::inspect::{apply_section_filter, normalize_sections, run, sort_strings, InspectArgs};
use docli::package::{Package, PartInventory, XmlPart};

fn strings(v: &[&str]) -> Vec<String> {
    v.iter().map(|s| s.to_string()).collect()
}

#[test]
fn sections_are_lowered_and_sorted() {
    assert_eq!(normalize_sections(&strings(&["Tables", "images", "TABLES"])), strings(&["images", "tables", "tables"]));
    assert_eq!(normalize_sections(&strings(&[])), strings(&[]));
}

#[test]
fn strings_sort_in_code_point_order() {
    assert_eq!(sort_strings(&strings(&["b", "B", "a", "ab", ""])), strings(&["", "B", "a", "ab", "b"]));
}

fn package(doc: &str) -> Package {
    Package {
        path: "t.docx".into(),
        source_hash: String::new(),
        inventory: PartInventory { entries: Vec::new() },
        xml_parts: vec![XmlPart { path: "word/document.xml".into(), bytes: doc.as_bytes().to_vec() }],
        binary_parts: Vec::new(),
    }
}

const DOC: &str = r#"<w:document xmlns:w="http://schemas.openxmlformats.org/wordprocessingml/2006/main"><w:body><w:p><w:pPr><w:pStyle w:val="Heading1"/></w:pPr><w:r><w:t>Intro</w:t></w:r></w:p><w:p><w:r><w:t>Text</w:t></w:r></w:p></w:body></w:document>"#;

#[test]
fn inspect_keeps_only_named_sections() {
    let args = InspectArgs { source: "t.docx".into(), sections: strings(&["Headings"]) };
    let data = run(&args, &package(DOC)).unwrap();
    assert_eq!(data.sections, strings(&["headings"]));
    assert!(data.index.paragraphs.is_empty());
    assert_eq!(data.index.headings.len(), 1);
    let all = run(&InspectArgs { source: "t.docx".into(), sections: Vec::new() }, &package(DOC)).unwrap();
    assert_eq!(all.index.paragraphs.len(), 2);
}

#[test]
fn inspect_without_document_part_fails() {
    let mut pkg = package(DOC);
    pkg.xml_parts.clear();
    let err = run(&InspectArgs { source: "t.docx".into(), sections: Vec::new() }, &pkg).unwrap_err();
    assert_eq!(err.message(), "missing word/document.xml");
}

#[test]
fn filter_with_no_sections_keeps_everything() {
    let index = DocumentIndex::build(DOC.as_bytes()).unwrap();
    let n = index.paragraphs.len();
    let kept = apply_section_filter(index, &Vec::new());
    assert_eq!(kept.paragraphs.len(), n);
}
