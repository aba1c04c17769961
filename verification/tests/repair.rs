use docli::repair::{ensure_xml_space_preserve, repair_durable_id_overflow};

#[test]
fn ensure_xml_space_preserve_adds_attribute_for_leading_space() {
    let xml = br#"<?xml version="1.0"?><root><w:t> hello</w:t></root>"#;
    let result = ensure_xml_space_preserve(xml).expect("should succeed");
    let out = String::from_utf8(result).unwrap();
    assert!(out.contains("xml:space=\"preserve\""), "Expected xml:space=preserve in output: {out}");
}

#[test]
fn ensure_xml_space_preserve_adds_attribute_for_trailing_space() {
    let xml = br#"<?xml version="1.0"?><root><w:t>hello </w:t></root>"#;
    let result = ensure_xml_space_preserve(xml).expect("should succeed");
    let out = String::from_utf8(result).unwrap();
    assert!(out.contains("xml:space=\"preserve\""), "Expected xml:space=preserve in output: {out}");
}

#[test]
fn ensure_xml_space_preserve_does_not_add_when_not_needed() {
    let xml = br#"<?xml version="1.0"?><root><w:t>hello</w:t></root>"#;
    let result = ensure_xml_space_preserve(xml).expect("should succeed");
    let out = String::from_utf8(result).unwrap();
    assert!(!out.contains("xml:space"), "Should NOT add xml:space when no whitespace: {out}");
}

#[test]
fn ensure_xml_space_preserve_does_not_duplicate_existing_attribute() {
    let xml = br#"<?xml version="1.0"?><root><w:t xml:space="preserve"> hello</w:t></root>"#;
    let result = ensure_xml_space_preserve(xml).expect("should succeed");
    let out = String::from_utf8(result).unwrap();
    let count = out.matches("xml:space").count();
    assert_eq!(count, 1, "Should not duplicate xml:space attribute: {out}");
}

#[test]
fn repair_id_overflow_renumbers_overflowing_ids() {
    let xml = br#"<?xml version="1.0"?><root><w:p w:id="2147483647"/></root>"#;
    let result = repair_durable_id_overflow(xml).expect("should succeed");
    let out = String::from_utf8(result).unwrap();
    assert!(!out.contains("w:id=\"2147483647\""), "Overflow id should be renumbered: {out}");
    assert!(out.contains("w:id="), "Should still have a w:id attribute: {out}");
}

#[test]
fn repair_id_overflow_preserves_valid_ids() {
    let xml = br#"<?xml version="1.0"?><root><w:p w:id="5"/></root>"#;
    let result = repair_durable_id_overflow(xml).expect("should succeed");
    let out = String::from_utf8(result).unwrap();
    assert!(out.contains("w:id=\"5\""), "Valid id should be preserved: {out}");
}

#[test]
fn repair_id_overflow_avoids_collision_with_existing_ids() {
    let xml = br#"<?xml version="1.0"?><root><w:p w:id="1"/><w:p w:id="2147483648"/></root>"#;
    let result = repair_durable_id_overflow(xml).expect("should succeed");
    let out = String::from_utf8(result).unwrap();
    assert!(out.contains("w:id=\"1\""), "Valid id 1 should be kept: {out}");
    assert!(out.contains("w:id=\"2\""), "Overflow should be renumbered to 2: {out}");
}

#[test]
fn repair_id_overflow_renumbers_non_numeric_ids_in_order() {
    let xml = br#"<root><a w:id="abc"/><b w:id="3"/><c w:id="99999999999"/></root>"#;
    let out = String::from_utf8(repair_durable_id_overflow(xml).unwrap()).unwrap();
    assert_eq!(out, r#"<root><a w:id="1"/><b w:id="3"/><c w:id="2"/></root>"#);
}

#[test]
fn malformed_xml_is_reported() {
    let xml = b"<root><a></b></root>";
    assert!(repair_durable_id_overflow(xml).is_err());
    assert!(ensure_xml_space_preserve(xml).is_err());
}

#[test]
fn events_without_an_edit_are_written_back_as_read() {
    let xml = br#"<?xml version="1.0"?><!-- note --><w:p a = "1"><w:t>x</w:t><w:br/></w:p>"#;
    assert_eq!(ensure_xml_space_preserve(xml).unwrap(), xml.to_vec());
}

#[test]
fn a_duplicated_attribute_is_left_out_of_a_rewritten_tag() {
    let xml = br#"<w:p><w:r><w:t a="1" a="2"> x</w:t></w:r></w:p>"#;
    let out = String::from_utf8(ensure_xml_space_preserve(xml).unwrap()).unwrap();
    assert!(out.contains(r#"<w:t a="1" xml:space="preserve"> x</w:t>"#));
}
