use docli::ooxml::{pretty_print_xml, query_matches};
use docli::package::{Package, PartInventory, XmlPart};

#[test]
fn pretty_print_indents_elements() {
    let out = pretty_print_xml(br#"<?xml version="1.0"?><a><b x="1">t</b><c/></a>"#);
    let text = String::from_utf8(out).unwrap();
    assert_eq!(text, "<?xml version=\"1.0\"?>\n<a>\n  <b x=\"1\">t</b>\n  <c/>\n</a>\n");
}

#[test]
fn unparsable_bytes_are_returned_as_they_are() {
    let raw = b"<a><b></a>".to_vec();
    assert_eq!(pretty_print_xml(&raw), raw);
}

#[test]
fn query_finds_elements_by_local_name() {
    let doc = r#"<w:document xmlns:w="http://schemas.openxmlformats.org/wordprocessingml/2006/main"><w:body><w:p><w:r><w:t>Hi</w:t></w:r></w:p><w:p w:rsidR="00A1"/></w:body></w:document>"#;
    let pkg = Package {
        path: "t.docx".into(),
        source_hash: String::new(),
        inventory: PartInventory { entries: Vec::new() },
        xml_parts: vec![XmlPart { path: "word/document.xml".into(), bytes: doc.as_bytes().to_vec() }],
        binary_parts: Vec::new(),
    };
    let matches = query_matches(&pkg, "//p").unwrap();
    assert_eq!(matches.len(), 2);
    assert_eq!(matches[0].tag, "p");
    // Both the `t` element and its text node report the text, as roxmltree
    // gives an element the text of its first child.
    assert_eq!(matches[0].text.as_deref(), Some("HiHi"));
    assert_eq!(matches[1].text, None);
    assert_eq!(matches[1].attributes.len(), 1);
    assert_eq!(matches[1].attributes[0].name, "rsidR");
    assert_eq!(matches[1].attributes[0].value, "00A1");
}
