use docli::part_graph::PartGraph;
use docli::replace_text::replace_text_in_part;

fn make_graph(path: &str, xml: &str) -> PartGraph {
    let mut graph = PartGraph::new();
    graph.set_xml(path, xml.as_bytes().to_vec());
    graph
}

fn doc_xml(body: &str) -> String {
    format!(
        r#"<?xml version="1.0" encoding="UTF-8" standalone="yes"?><w:document xmlns:w="http://schemas.openxmlformats.org/wordprocessingml/2006/main"><w:body>{body}</w:body></w:document>"#
    )
}

#[test]
fn basic_replacement() {
    let body = r#"<w:p xmlns:w="http://schemas.openxmlformats.org/wordprocessingml/2006/main"><w:r><w:t>Hello World</w:t></w:r></w:p>"#;
    let xml = doc_xml(body);
    let para_offset = xml.find("<w:p ").unwrap();

    let mut graph = make_graph("word/document.xml", &xml);
    replace_text_in_part(&mut graph, "word/document.xml", para_offset, 6, 11, "Earth").unwrap();

    let result = std::str::from_utf8(graph.xml_bytes("word/document.xml").unwrap()).unwrap();
    assert!(result.contains("Hello"));
    assert!(result.contains("Earth"));
    assert!(!result.contains("World"));
}

#[test]
fn preserve_formatting_on_replace() {
    let body = r#"<w:p xmlns:w="http://schemas.openxmlformats.org/wordprocessingml/2006/main"><w:r><w:rPr><w:b/></w:rPr><w:t>Bold text</w:t></w:r></w:p>"#;
    let xml = doc_xml(body);
    let para_offset = xml.find("<w:p ").unwrap();

    let mut graph = make_graph("word/document.xml", &xml);
    replace_text_in_part(&mut graph, "word/document.xml", para_offset, 5, 9, "word").unwrap();

    let result = std::str::from_utf8(graph.xml_bytes("word/document.xml").unwrap()).unwrap();
    assert!(result.contains("w:b"));
    assert!(result.contains("word"));
}

#[test]
fn replace_entire_text() {
    let body = r#"<w:p xmlns:w="http://schemas.openxmlformats.org/wordprocessingml/2006/main"><w:r><w:t>Old</w:t></w:r></w:p>"#;
    let xml = doc_xml(body);
    let para_offset = xml.find("<w:p ").unwrap();

    let mut graph = make_graph("word/document.xml", &xml);
    replace_text_in_part(&mut graph, "word/document.xml", para_offset, 0, 3, "New").unwrap();

    let result = std::str::from_utf8(graph.xml_bytes("word/document.xml").unwrap()).unwrap();
    assert!(result.contains("New"));
    assert!(!result.contains("Old"));
}

#[test]
fn reversed_range_is_rejected() {
    let body = r#"<w:p><w:r><w:t>Old</w:t></w:r></w:p>"#;
    let xml = doc_xml(body);
    let para_offset = xml.find("<w:p>").unwrap();
    let mut graph = make_graph("word/document.xml", &xml);
    let result = replace_text_in_part(&mut graph, "word/document.xml", para_offset, 2, 1, "x");
    assert!(result.is_err());
    assert_eq!(graph.xml_bytes("word/document.xml").unwrap(), xml.as_bytes());
}

#[test]
fn missing_part_is_reported() {
    let mut graph = PartGraph::new();
    let err = replace_text_in_part(&mut graph, "word/document.xml", 0, 0, 0, "x").unwrap_err();
    assert_eq!(err.message(), "part not found: word/document.xml");
}

#[test]
fn offset_at_a_paragraph_start_edits_that_paragraph() {
    let w = "http://schemas.openxmlformats.org/wordprocessingml/2006/main";
    let xml = format!(
        r#"<w:body><w:p xmlns:w="{w}"><w:r><w:t>A</w:t></w:r></w:p><w:p xmlns:w="{w}"><w:r><w:t>B</w:t></w:r></w:p></w:body>"#
    );
    let o = xml.rfind("<w:p ").unwrap();
    let mut graph = make_graph("word/document.xml", &xml);
    replace_text_in_part(&mut graph, "word/document.xml", o, 0, 1, "C").unwrap();

    let result = std::str::from_utf8(graph.xml_bytes("word/document.xml").unwrap()).unwrap();
    assert!(result.starts_with(&xml[..o]));
    let tail = &result[o..];
    assert!(tail.contains(r#"<w:t xml:space="preserve">C</w:t>"#));
    assert!(!result.contains(">B</w:t>"));
    assert!(result[..o].contains("<w:t>A</w:t>"));
}
