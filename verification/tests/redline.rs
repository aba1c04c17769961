use docli::package::{Package, PartEntry, PartInventory, XmlPart};
use docli::redline::{check_redline, validate_redlines};
use docli::schema::ValidationSeverity;

fn make_package(parts: Vec<(&str, &str)>) -> Package {
    Package {
        path: "test.docx".to_string(),
        source_hash: String::new(),
        inventory: PartInventory {
            entries: parts
                .iter()
                .map(|(p, c)| PartEntry { path: p.to_string(), sha256: String::new(), is_xml: true, size_bytes: c.len() as u64 })
                .collect(),
        },
        xml_parts: parts.iter().map(|(p, c)| XmlPart { path: p.to_string(), bytes: c.as_bytes().to_vec() }).collect(),
        binary_parts: Vec::new(),
    }
}

#[test]
fn valid_tracked_changes_produce_no_issues() {
    let xml = r#"<w:document xmlns:w="http://schemas.openxmlformats.org/wordprocessingml/2006/main"><w:body><w:p><w:ins w:id="1" w:author="A" w:date="2025-01-01"><w:r><w:t>new</w:t></w:r></w:ins></w:p></w:body></w:document>"#;
    let package = make_package(vec![("word/document.xml", xml)]);
    let issues = check_redline(&package);
    assert!(issues.is_empty(), "expected no issues, got: {issues:?}");
}

#[test]
fn detects_duplicate_tracked_change_ids() {
    let xml = r#"<w:document xmlns:w="http://schemas.openxmlformats.org/wordprocessingml/2006/main"><w:body><w:p><w:ins w:id="1" w:author="A" w:date="2025-01-01"><w:r><w:t>a</w:t></w:r></w:ins></w:p><w:p><w:del w:id="1" w:author="A" w:date="2025-01-01"><w:r><w:delText>b</w:delText></w:r></w:del></w:p></w:body></w:document>"#;
    let package = make_package(vec![("word/document.xml", xml)]);
    let issues = check_redline(&package);
    assert!(issues.iter().any(|i| i.code == "redline-duplicate-id"), "expected duplicate id issue, got: {issues:?}");
}

#[test]
fn detects_missing_id_attribute() {
    let xml = r#"<w:document xmlns:w="http://schemas.openxmlformats.org/wordprocessingml/2006/main"><w:body><w:p><w:ins w:author="A" w:date="2025-01-01"><w:r><w:t>x</w:t></w:r></w:ins></w:p></w:body></w:document>"#;
    let package = make_package(vec![("word/document.xml", xml)]);
    let issues = check_redline(&package);
    assert!(issues.iter().any(|i| i.code == "redline-missing-id"), "expected missing id issue, got: {issues:?}");
}

#[test]
fn detects_nested_tracked_changes() {
    let xml = r#"<w:document xmlns:w="http://schemas.openxmlformats.org/wordprocessingml/2006/main"><w:body><w:p><w:ins w:id="1" w:author="A" w:date="2025-01-01"><w:ins w:id="2" w:author="A" w:date="2025-01-01"><w:r><w:t>nested</w:t></w:r></w:ins></w:ins></w:p></w:body></w:document>"#;
    let package = make_package(vec![("word/document.xml", xml)]);
    let issues = check_redline(&package);
    assert!(issues.iter().any(|i| i.code == "redline-nested"), "expected nested issue, got: {issues:?}");
}

#[test]
fn detects_unbalanced_comment_range() {
    let xml = r#"<w:document xmlns:w="http://schemas.openxmlformats.org/wordprocessingml/2006/main"><w:body><w:p><w:commentRangeStart w:id="10"/><w:r><w:t>text</w:t></w:r></w:p></w:body></w:document>"#;
    let package = make_package(vec![("word/document.xml", xml)]);
    let issues = check_redline(&package);
    assert!(
        issues.iter().any(|i| i.code == "redline-unbalanced-comment-range"),
        "expected unbalanced comment range issue, got: {issues:?}"
    );
}

#[test]
fn balanced_comment_range_is_ok() {
    let xml = r#"<w:document xmlns:w="http://schemas.openxmlformats.org/wordprocessingml/2006/main"><w:body><w:p><w:commentRangeStart w:id="10"/><w:r><w:t>text</w:t></w:r><w:commentRangeEnd w:id="10"/></w:p></w:body></w:document>"#;
    let package = make_package(vec![("word/document.xml", xml)]);
    let issues = check_redline(&package);
    assert!(
        !issues.iter().any(|i| i.code == "redline-unbalanced-comment-range"),
        "expected no unbalanced issue, got: {issues:?}"
    );
}

#[test]
fn detects_missing_author() {
    let xml = r#"<w:document xmlns:w="http://schemas.openxmlformats.org/wordprocessingml/2006/main"><w:body><w:p><w:ins w:id="1" w:date="2025-01-01"><w:r><w:t>x</w:t></w:r></w:ins></w:p></w:body></w:document>"#;
    let package = make_package(vec![("word/document.xml", xml)]);
    let issues = check_redline(&package);
    assert!(issues.iter().any(|i| i.code == "redline-missing-author"), "expected missing author issue, got: {issues:?}");
}

#[test]
fn empty_document_produces_no_issues() {
    let xml = r#"<w:document xmlns:w="http://schemas.openxmlformats.org/wordprocessingml/2006/main"><w:body><w:p><w:r><w:t>Hello</w:t></w:r></w:p></w:body></w:document>"#;
    let package = make_package(vec![("word/document.xml", xml)]);
    let issues = check_redline(&package);
    assert!(issues.is_empty());
}

#[test]
fn findings_name_their_part_and_severity() {
    let doc = r#"<w:document xmlns:w="w"><w:body><w:ins w:id="x" w:author="A"/></w:body></w:document>"#;
    let hdr = r#"<w:hdr xmlns:w="w"><w:del w:id="3"><w:r><w:t>t</w:t></w:r></w:del></w:hdr>"#;
    let package = make_package(vec![("word/document.xml", doc), ("word/header1.xml", hdr)]);
    let issues = validate_redlines(&package);
    assert_eq!(issues.len(), 3, "{issues:?}");
    assert_eq!(issues[0].code, "redline-invalid-id");
    assert_eq!(issues[0].message, "w:ins has non-numeric w:id: x");
    assert_eq!(issues[0].part.as_deref(), Some("word/document.xml"));
    assert_eq!(issues[1].code, "redline-missing-author");
    assert!(issues[1].severity == ValidationSeverity::Warning);
    assert_eq!(issues[1].part.as_deref(), Some("word/header1.xml"));
    assert_eq!(issues[2].code, "redline-del-uses-t");
    assert_eq!(issues[2].part.as_deref(), Some("word/header1.xml"));
}
