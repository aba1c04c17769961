use docli::delete::delete_content;
use docli::part_graph::PartGraph;

fn make_graph(path: &str, xml: &str) -> PartGraph {
    let mut graph = PartGraph::new();
    graph.set_xml(path, xml.as_bytes().to_vec());
    graph
}

#[test]
fn delete_paragraph_from_body() {
    let xml = r#"<w:body><w:p><w:r><w:t>Keep</w:t></w:r></w:p><w:p><w:r><w:t>Delete</w:t></w:r></w:p></w:body>"#;
    let para_start = xml.find("<w:p><w:r><w:t>Delete").unwrap();
    let para_end = para_start + "<w:p><w:r><w:t>Delete</w:t></w:r></w:p>".len();

    let mut graph = make_graph("word/document.xml", xml);
    delete_content(&mut graph, "word/document.xml", para_start, para_end).unwrap();

    let result = std::str::from_utf8(graph.xml_bytes("word/document.xml").unwrap()).unwrap();
    assert!(result.contains("Keep"));
    assert!(!result.contains("Delete"));
}

#[test]
fn delete_entire_content() {
    let xml = "<w:body><w:p><w:r><w:t>Only</w:t></w:r></w:p></w:body>";
    let start = xml.find("<w:p>").unwrap();
    let end = xml.find("</w:p>").unwrap() + "</w:p>".len();

    let mut graph = make_graph("word/document.xml", xml);
    delete_content(&mut graph, "word/document.xml", start, end).unwrap();

    let result = std::str::from_utf8(graph.xml_bytes("word/document.xml").unwrap()).unwrap();
    assert_eq!(result, "<w:body></w:body>");
}

#[test]
fn delete_invalid_range_returns_error() {
    let xml = "<w:body><w:p/></w:body>";
    let mut graph = make_graph("word/document.xml", xml);
    let result = delete_content(&mut graph, "word/document.xml", 10, 5);
    assert!(result.is_err());
}

#[test]
fn delete_beyond_length_returns_error() {
    let xml = "<w:body/>";
    let mut graph = make_graph("word/document.xml", xml);
    let result = delete_content(&mut graph, "word/document.xml", 0, 999);
    assert!(result.is_err());
}

#[test]
fn delete_errors_name_the_bounds() {
    let mut graph = make_graph("word/document.xml", "<w:body/>");
    let err = delete_content(&mut graph, "word/document.xml", 10, 5).unwrap_err();
    assert_eq!(err.message(), "byte_offset (10) > byte_end (5)");
    let err = delete_content(&mut graph, "word/document.xml", 0, 999).unwrap_err();
    assert_eq!(err.message(), "byte_end (999) exceeds part length (9)");
    let err = delete_content(&mut graph, "word/missing.xml", 0, 1).unwrap_err();
    assert_eq!(err.message(), "part not found: word/missing.xml");
    // A failed delete leaves the part as it was.
    assert_eq!(graph.xml_bytes("word/document.xml").unwrap(), b"<w:body/>");
}
