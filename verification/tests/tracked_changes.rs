use docli::tracked_changes::{build_tracked_deletion, build_tracked_insertion};

#[test]
fn insertion_basic() {
    let xml = build_tracked_insertion("Hello", None, 1, "Alice", "2025-01-01T00:00:00Z");
    assert!(xml.contains(r#"<w:ins w:id="1""#));
    assert!(xml.contains(r#"w:author="Alice""#));
    assert!(xml.contains("<w:t>Hello</w:t>"));
    assert!(xml.contains("</w:ins>"));
}

#[test]
fn insertion_with_run_props() {
    let xml = build_tracked_insertion("Bold text", Some("<w:rPr><w:b/></w:rPr>"), 42, "Bob", "2025-06-15T12:00:00Z");
    assert!(xml.contains("<w:rPr><w:b/></w:rPr>"));
    assert!(xml.contains(r#"w:id="42""#));
    assert!(xml.contains("<w:t>Bold text</w:t>"));
}

#[test]
fn insertion_escapes_author() {
    let xml = build_tracked_insertion("text", None, 1, "O'Brien & Co", "2025-01-01T00:00:00Z");
    assert!(xml.contains("O&apos;Brien &amp; Co") || xml.contains("O'Brien &amp; Co"));
}

#[test]
fn insertion_preserves_space() {
    let xml = build_tracked_insertion(" spaced ", None, 1, "A", "2025-01-01T00:00:00Z");
    assert!(xml.contains(r#"xml:space="preserve""#));
}

#[test]
fn deletion_basic() {
    let xml = build_tracked_deletion("removed", None, 5, "Carol", "2025-03-01T09:00:00Z");
    assert!(xml.contains(r#"<w:del w:id="5""#));
    assert!(xml.contains(r#"w:author="Carol""#));
    assert!(xml.contains("<w:delText>removed</w:delText>"));
    assert!(xml.contains("</w:del>"));
}

#[test]
fn deletion_with_run_props() {
    let xml = build_tracked_deletion("old", Some("<w:rPr><w:i/></w:rPr>"), 10, "Dan", "2025-04-01T00:00:00Z");
    assert!(xml.contains("<w:rPr><w:i/></w:rPr>"));
    assert!(xml.contains("<w:delText>old</w:delText>"));
}

#[test]
fn deletion_escapes_text() {
    let xml = build_tracked_deletion("a < b & c", None, 1, "E", "2025-01-01T00:00:00Z");
    assert!(xml.contains("a &lt; b &amp; c"));
}

#[test]
fn escaped_markup_has_no_angle_brackets_in_text() {
    let xml = build_tracked_insertion("<x>\"q\"", None, 7, "<A>", "d");
    let start = xml.find("<w:t").unwrap();
    let text_start = xml[start..].find('>').unwrap() + start + 1;
    let text_end = xml.find("</w:t>").unwrap();
    let text = &xml[text_start..text_end];
    assert_eq!(text, "&lt;x&gt;&quot;q&quot;");
    assert!(xml.contains(r#"w:author="&lt;A&gt;""#));
}
