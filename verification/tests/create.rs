use docli::create::{build_docx, CreateBackend, CreateSpec, DocxRsBackend, PageSetup};
use docli::job::{ContentBlock, ParagraphContent, TableBlock};

fn simple_spec() -> CreateSpec {
    CreateSpec {
        title: None,
        page: PageSetup { size: None, orientation: None, margins: None },
        content: vec![
            ContentBlock::Heading1 { heading1: "Title".to_string() },
            ContentBlock::Paragraph { paragraph: ParagraphContent::Text("A paragraph.".to_string()) },
            ContentBlock::Bullets { bullets: vec!["First".to_string(), "Second".to_string()] },
            ContentBlock::Table {
                table: TableBlock {
                    headers: vec!["Name".to_string(), "Value".to_string()],
                    rows: vec![vec!["a".to_string(), "1".to_string()], vec!["b".to_string(), "2".to_string()]],
                    style: None,
                    column_widths: Vec::new(),
                },
            },
        ],
        vars: Vec::new(),
    }
}

#[test]
fn creates_nonempty_docx_from_simple_spec() {
    let spec = simple_spec();
    let backend = DocxRsBackend;
    let bytes = backend.create(&spec).unwrap();
    assert!(!bytes.is_empty());
    assert_eq!(&bytes[0..2], b"PK");
}

#[test]
fn body_has_one_child_per_paragraph_and_table() {
    let spec = simple_spec();
    let docx = build_docx(&spec.content);
    // Heading, paragraph, two bullets, one table.
    assert_eq!(docx.document.children.len(), 5);
    let xml = String::from_utf8(docx.build().document).unwrap();
    assert!(xml.contains("Heading1"));
    assert!(xml.contains("ListBullet"));
    assert!(xml.contains("Second"));
    assert!(xml.contains("w:tbl"));
}

#[test]
fn skipped_blocks_add_nothing() {
    let content = vec![
        ContentBlock::PageBreak { page_break: false },
        ContentBlock::Ref { ref_uri: "kb://x".to_string() },
    ];
    let docx = build_docx(&content);
    assert_eq!(docx.document.children.len(), 0);
    let content = vec![ContentBlock::PageBreak { page_break: true }];
    assert_eq!(build_docx(&content).document.children.len(), 1);
}

#[test]
fn created_package_opens_with_a_zip_local_header() {
    let bytes = DocxRsBackend.create(&simple_spec()).unwrap();
    assert_eq!(&bytes[0..4], &[0x50u8, 0x4B, 0x03, 0x04]);
}

#[test]
fn package_bytes_depend_on_paragraphs_made_earlier_on_the_thread() {
    let spec = simple_spec();
    let _unpacked = build_docx(&spec.content);
    let first = DocxRsBackend.create(&spec).unwrap();
    let second = DocxRsBackend.create(&spec).unwrap();
    assert_ne!(first, second);
}
