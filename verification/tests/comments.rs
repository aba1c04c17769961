use docli::comments::{add_comment, add_comment_reply, resolve_comment};
use docli::part_graph::PartGraph;

const COMMENTS_PART: &str = "word/comments.xml";

fn make_graph(doc_xml: &str) -> PartGraph {
    let mut graph = PartGraph::new();
    graph.set_xml("word/document.xml", doc_xml.as_bytes().to_vec());
    graph
}

fn make_graph_with_comments(doc_xml: &str, comments_xml: &str) -> PartGraph {
    let mut graph = make_graph(doc_xml);
    graph.set_xml(COMMENTS_PART, comments_xml.as_bytes().to_vec());
    graph
}

#[test]
fn add_comment_inserts_markers_and_element() {
    let doc = "<w:body><w:p><w:r><w:t>Hello</w:t></w:r></w:p></w:body>";
    let para_start = doc.find("<w:p>").unwrap();
    let para_end = doc.find("</w:p>").unwrap() + "</w:p>".len();

    let mut graph = make_graph(doc);
    add_comment(&mut graph, "word/document.xml", para_start, para_end, 100, "Alice", "2025-01-01T00:00:00Z", "Good point")
        .unwrap();

    let result = std::str::from_utf8(graph.xml_bytes("word/document.xml").unwrap()).unwrap();
    assert!(result.contains(r#"<w:commentRangeStart w:id="100"/>"#));
    assert!(result.contains(r#"<w:commentRangeEnd w:id="100"/>"#));
    assert!(result.contains(r#"<w:commentReference w:id="100"/>"#));

    let comments = std::str::from_utf8(graph.xml_bytes(COMMENTS_PART).unwrap()).unwrap();
    assert!(comments.contains(r#"w:id="100""#));
    assert!(comments.contains("Good point"));
}

#[test]
fn add_comment_creates_comments_part_if_missing() {
    let doc = "<w:body><w:p><w:r><w:t>Hi</w:t></w:r></w:p></w:body>";
    let mut graph = make_graph(doc);
    let para_start = doc.find("<w:p>").unwrap();
    let para_end = doc.find("</w:p>").unwrap() + "</w:p>".len();

    add_comment(&mut graph, "word/document.xml", para_start, para_end, 1, "Bob", "2025-01-01T00:00:00Z", "Note").unwrap();

    assert!(graph.xml_bytes(COMMENTS_PART).is_some());
}

#[test]
fn add_comment_error_on_bad_range() {
    let doc = "<w:body><w:p/></w:body>";
    let mut graph = make_graph(doc);
    let result = add_comment(&mut graph, "word/document.xml", 0, 9999, 1, "A", "2025-01-01T00:00:00Z", "x");
    assert!(result.is_err());
}

#[test]
fn add_reply_links_to_parent() {
    let doc = "<w:body><w:p/></w:body>";
    let comments = r#"<?xml version="1.0" encoding="UTF-8" standalone="yes"?><w:comments xmlns:w="http://schemas.openxmlformats.org/wordprocessingml/2006/main"><w:comment w:id="1" w:author="Alice" w:date="2025-01-01T00:00:00Z"><w:p><w:r><w:t>Original</w:t></w:r></w:p></w:comment></w:comments>"#;
    let mut graph = make_graph_with_comments(doc, comments);

    add_comment_reply(&mut graph, 1, 2, "Bob", "2025-01-02T00:00:00Z", "I agree").unwrap();

    let result = std::str::from_utf8(graph.xml_bytes(COMMENTS_PART).unwrap()).unwrap();
    assert!(result.contains(r#"w:id="2""#));
    assert!(result.contains("@reply:1 I agree"));
}

#[test]
fn add_reply_error_on_missing_parent() {
    let doc = "<w:body><w:p/></w:body>";
    let comments = r#"<?xml version="1.0" encoding="UTF-8" standalone="yes"?><w:comments xmlns:w="http://schemas.openxmlformats.org/wordprocessingml/2006/main"></w:comments>"#;
    let mut graph = make_graph_with_comments(doc, comments);

    let result = add_comment_reply(&mut graph, 999, 2, "Bob", "2025-01-02T00:00:00Z", "reply");
    assert!(result.is_err());
}

#[test]
fn resolve_comment_adds_done_attribute() {
    let doc = "<w:body><w:p/></w:body>";
    let comments = r#"<?xml version="1.0" encoding="UTF-8" standalone="yes"?><w:comments xmlns:w="http://schemas.openxmlformats.org/wordprocessingml/2006/main"><w:comment w:id="5" w:author="Carol" w:date="2025-01-01T00:00:00Z"><w:p><w:r><w:t>Fix this</w:t></w:r></w:p></w:comment></w:comments>"#;
    let mut graph = make_graph_with_comments(doc, comments);

    resolve_comment(&mut graph, 5).unwrap();

    let result = std::str::from_utf8(graph.xml_bytes(COMMENTS_PART).unwrap()).unwrap();
    assert!(result.contains(r#"w:done="1""#));
}

#[test]
fn resolve_comment_error_on_missing() {
    let doc = "<w:body><w:p/></w:body>";
    let comments = r#"<?xml version="1.0" encoding="UTF-8" standalone="yes"?><w:comments xmlns:w="http://schemas.openxmlformats.org/wordprocessingml/2006/main"></w:comments>"#;
    let mut graph = make_graph_with_comments(doc, comments);

    let result = resolve_comment(&mut graph, 999);
    assert!(result.is_err());
}

#[test]
fn comment_leaves_other_parts_alone() {
    let doc = "<w:body><w:p>x</w:p></w:body>";
    let mut graph = make_graph(doc);
    graph.set_xml("word/styles.xml", b"<w:styles/>".to_vec());
    add_comment(&mut graph, "word/document.xml", 8, 20, 3, "Ann", "d", "t").unwrap();
    assert_eq!(graph.xml_bytes("word/styles.xml").unwrap(), b"<w:styles/>");
}

#[test]
fn resolve_comment_exact_markup() {
    let comments = r#"<w:comments><w:comment w:id="5" w:author="C"></w:comment></w:comments>"#;
    let mut graph = make_graph_with_comments("<w:body/>", comments);
    resolve_comment(&mut graph, 5).unwrap();
    let result = std::str::from_utf8(graph.xml_bytes(COMMENTS_PART).unwrap()).unwrap();
    assert_eq!(result, r#"<w:comments><w:comment w:id="5" w:done="1" w:author="C"></w:comment></w:comments>"#);
}

#[test]
fn resolve_without_comments_part_fails() {
    let mut graph = make_graph("<w:body/>");
    let err = resolve_comment(&mut graph, 1).unwrap_err();
    assert_eq!(err.message(), "comments.xml not found");
}
