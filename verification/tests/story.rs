use docli::job::Story;
use docli::story::{normalize_word_target, StoryPartMap};

#[test]
fn maps_header_and_footer_references_from_document_relationships() {
    let document = br#"<?xml version="1.0" encoding="UTF-8"?>
            <w:document xmlns:w="http://schemas.openxmlformats.org/wordprocessingml/2006/main"
                xmlns:r="http://schemas.openxmlformats.org/officeDocument/2006/relationships">
              <w:body>
                <w:sectPr>
                  <w:headerReference w:type="default" r:id="rId1"/>
                  <w:footerReference w:type="first" r:id="rId2"/>
                </w:sectPr>
              </w:body>
            </w:document>"#;
    let rels = br#"<?xml version="1.0" encoding="UTF-8"?>
            <Relationships xmlns="http://schemas.openxmlformats.org/package/2006/relationships">
              <Relationship Id="rId1" Target="header1.xml" />
              <Relationship Id="rId2" Target="footer1.xml" />
            </Relationships>"#;

    let map = StoryPartMap::from_bytes(document, Some(rels)).unwrap();

    assert_eq!(map.path_for(&Story::Body), Some("word/document.xml"));
    assert_eq!(map.path_for(&Story::HeaderDefault), Some("word/header1.xml"));
    assert_eq!(map.path_for(&Story::FooterFirst), Some("word/footer1.xml"));
}

#[test]
fn unknown_story_has_no_part() {
    let document = br#"<w:document xmlns:w="http://schemas.openxmlformats.org/wordprocessingml/2006/main"><w:body/></w:document>"#;
    let map = StoryPartMap::from_bytes(document, None).unwrap();
    assert_eq!(map.path_for(&Story::Body), Some("word/document.xml"));
    assert_eq!(map.path_for(&Story::HeaderEven), None);
}

#[test]
fn word_targets_are_placed_under_word() {
    assert_eq!(normalize_word_target("header1.xml"), "word/header1.xml");
    assert_eq!(normalize_word_target("word/footer2.xml"), "word/footer2.xml");
    assert_eq!(normalize_word_target("media/image1.png"), "word/media/image1.png");
}
