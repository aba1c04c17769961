use docli::invariants::check_invariants;
use docli::package::{Package, PartEntry, PartInventory, XmlPart};

fn build_package(document_xml: &str, rels_xml: &str, content_types: &str) -> Package {
    let parts = vec![
        ("[Content_Types].xml", content_types),
        ("_rels/.rels", rels_xml),
        ("word/_rels/document.xml.rels", rels_xml),
        ("word/document.xml", document_xml),
    ];
    Package {
        path: "test.docx".to_string(),
        source_hash: String::new(),
        inventory: PartInventory {
            entries: parts
                .iter()
                .map(|(p, x)| PartEntry { path: p.to_string(), sha256: String::new(), is_xml: true, size_bytes: x.len() as u64 })
                .collect(),
        },
        xml_parts: parts.iter().map(|(p, x)| XmlPart { path: p.to_string(), bytes: x.as_bytes().to_vec() }).collect(),
        binary_parts: Vec::new(),
    }
}

const RELS: &str = r#"<Relationships xmlns="http://schemas.openxmlformats.org/package/2006/relationships"></Relationships>"#;
const TYPES: &str = r#"<Types xmlns="http://schemas.openxmlformats.org/package/2006/content-types">
            <Default Extension="rels" ContentType="application/vnd.openxmlformats-package.relationships+xml"/>
            <Default Extension="xml" ContentType="application/xml"/>
            <Override PartName="/word/document.xml" ContentType="application/vnd.openxmlformats-officedocument.wordprocessingml.document.main+xml"/>
        </Types>"#;

#[test]
fn reports_duplicate_word_ids() {
    let document = r#"<w:document xmlns:w="http://schemas.openxmlformats.org/wordprocessingml/2006/main">
            <w:body>
              <w:p><w:bookmarkStart w:id="7" w:name="a"/></w:p>
              <w:p><w:bookmarkStart w:id="7" w:name="b"/></w:p>
            </w:body>
        </w:document>"#;
    let package = build_package(document, RELS, TYPES);
    let issues = check_invariants(&package);
    assert!(issues.iter().any(|issue| issue.code == "duplicate-word-id"));
}

#[test]
fn reports_invalid_tracked_change_nesting() {
    let document = r#"<w:document xmlns:w="http://schemas.openxmlformats.org/wordprocessingml/2006/main">
            <w:body><w:p><w:r><w:ins/></w:r></w:p></w:body>
        </w:document>"#;
    let package = build_package(document, RELS, TYPES);
    let issues = check_invariants(&package);
    assert!(issues.iter().any(|issue| issue.code == "invalid-tracked-change-nesting"));
}

#[test]
fn clean_package_has_no_invariant_issues() {
    let document = r#"<w:document xmlns:w="http://schemas.openxmlformats.org/wordprocessingml/2006/main"><w:body><w:p><w:r><w:t>x</w:t></w:r></w:p></w:body></w:document>"#;
    let package = build_package(document, RELS, TYPES);
    let issues = check_invariants(&package);
    assert!(issues.is_empty(), "{issues:?}");
}
