use docli::package::{Package, PartEntry, PartInventory};
use docli::structural::{check_structural, Severity};

fn make_package(parts: &[&str]) -> Package {
    let entries = parts
        .iter()
        .map(|p| PartEntry { path: p.to_string(), sha256: String::new(), is_xml: true, size_bytes: 0 })
        .collect();
    Package {
        path: "test.docx".to_string(),
        source_hash: String::new(),
        inventory: PartInventory { entries },
        xml_parts: Vec::new(),
        binary_parts: Vec::new(),
    }
}

#[test]
fn valid_package_produces_no_errors() {
    let pkg = make_package(&["[Content_Types].xml", "word/document.xml", "word/_rels/document.xml.rels", "_rels/.rels"]);
    let issues = check_structural(&pkg);
    assert!(issues.is_empty(), "Expected no issues, got: {issues:?}");
}

#[test]
fn missing_document_xml_is_an_error() {
    let pkg = make_package(&["[Content_Types].xml", "word/_rels/document.xml.rels", "_rels/.rels"]);
    let issues = check_structural(&pkg);
    assert!(
        issues.iter().any(|i| i.code == "MISSING_DOCUMENT_XML" && i.severity == Severity::Error),
        "Expected MISSING_DOCUMENT_XML error"
    );
}

#[test]
fn missing_root_rels_is_a_warning() {
    let pkg = make_package(&["[Content_Types].xml", "word/document.xml", "word/_rels/document.xml.rels"]);
    let issues = check_structural(&pkg);
    assert!(
        issues.iter().any(|i| i.code == "MISSING_ROOT_RELS" && i.severity == Severity::Warning),
        "Expected MISSING_ROOT_RELS warning"
    );
    assert!(!issues.iter().any(|i| i.severity == Severity::Error), "Expected no errors when only _rels/.rels is missing");
}

#[test]
fn missing_content_types_is_an_error() {
    let pkg = make_package(&["word/document.xml", "word/_rels/document.xml.rels", "_rels/.rels"]);
    let issues = check_structural(&pkg);
    assert!(
        issues.iter().any(|i| i.code == "MISSING_CONTENT_TYPES" && i.severity == Severity::Error),
        "Expected MISSING_CONTENT_TYPES error"
    );
}

#[test]
fn empty_package_reports_everything_in_order() {
    let issues = check_structural(&make_package(&[]));
    let codes: Vec<&str> = issues.iter().map(|i| i.code).collect();
    assert_eq!(codes, vec!["MISSING_CONTENT_TYPES", "MISSING_DOCUMENT_XML", "MISSING_DOCUMENT_RELS", "MISSING_ROOT_RELS"]);
    assert_eq!(issues[1].message, "Required DOCX part is missing: word/document.xml");
}
