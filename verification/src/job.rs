//! The operations a job asks for and the content they carry.

use vstd::prelude::*;

verus! {

/// A part of the document that holds text of its own.
#[derive(Clone, Copy, Debug, PartialEq, Eq, Hash, Structural)]
pub enum Story {
    Body,
    HeaderDefault,
    HeaderFirst,
    HeaderEven,
    FooterDefault,
    FooterFirst,
    FooterEven,
    Footnotes,
    Endnotes,
    Comments,
}

/// What an operation applies to.
#[derive(Clone, Debug)]
pub enum Target {
    Paragraph { paragraph: usize, story: Story },
    Paragraphs { paragraphs: Vec<usize>, story: Story },
    Range { range: String, story: Story },
    Heading { heading: String, offset: usize, story: Story },
    HeadingPath { heading_path: String, offset: usize },
    Table { table: usize },
    Image { image: usize },
    Style { style: String, story: Story },
    Text { text: String, regex: bool, occurrence: Option<usize>, story: Story },
    Bookmark { bookmark: String },
    NodeId { node_id: String },
    Contains { contains: String, occurrence: usize, story: Story },
}

/// A list of operations applied in order.
#[derive(Debug)]
pub struct Job {
    pub operations: Vec<Operation>,
}

/// One edit, review or finalisation step.
#[derive(Debug)]
pub enum Operation {
    EditReplace { target: Target, content: String },
    EditInsert { target: Target, position: Position, content: Vec<ContentBlock> },
    EditDelete { target: Target },
    EditFindReplace { find: String, replace: String, scope: Scope },
    EditUpdateTable { target: Target, cell: CellRef, content: String },
    EditAppendRow { target: Target, row: Vec<String> },
    EditReplaceImage { target: Target, path: String, width: Option<String> },
    EditSetStyle { target: Target, style: StyleOverride },
    EditSetHeading { target: Target, level: u8 },
    ReviewComment { target: Target, text: String, parent: Option<u64> },
    ReviewTrackReplace { target: Target, content: String },
    ReviewTrackInsert { target: Target, position: Position, content: Vec<ContentBlock> },
    ReviewTrackDelete { target: Target },
    FinalizeAccept { ids: Option<Vec<u64>> },
    FinalizeReject { ids: Option<Vec<u64>> },
    FinalizeStrip {},
}

/// Where inserted content goes relative to its target.
#[derive(Clone, Copy, Debug, PartialEq, Eq, Structural)]
pub enum Position {
    Before,
    After,
}

/// Which matches a find-and-replace touches.
#[derive(Clone, Debug)]
pub enum Scope {
    All,
    First,
    Section(String),
}

/// A table cell by row and column.
#[derive(Clone, Copy, Debug, PartialEq, Eq, Structural)]
pub struct CellRef {
    pub row: usize,
    pub col: usize,
}

/// Formatting to apply to a target.
#[derive(Clone, Debug)]
pub struct StyleOverride {
    pub style_id: Option<String>,
    pub font: Option<FontSpec>,
    pub size: Option<String>,
    pub color: Option<String>,
    pub align: Option<String>,
    pub bold: bool,
    pub italic: bool,
    pub underline: bool,
}

#[derive(Clone, Debug)]
pub struct FontSpec {
    pub name: Option<String>,
    pub size: Option<String>,
    pub color: Option<String>,
}

/// One block of content to create or insert.
#[derive(Debug)]
pub enum ContentBlock {
    Ref { ref_uri: String },
    Heading1 { heading1: String },
    Heading2 { heading2: String },
    Heading3 { heading3: String },
    Paragraph { paragraph: ParagraphContent },
    Bullets { bullets: Vec<String> },
    Numbers { numbers: Vec<String> },
    Table { table: TableBlock },
    Image { image: ImageBlock },
    PageBreak { page_break: bool },
    Toc { toc: TocBlock },
    Columns { columns: ColumnsBlock },
}

/// A paragraph given as plain text or as runs.
#[derive(Clone, Debug)]
pub enum ParagraphContent {
    Text(String),
    Block(ParagraphBlock),
}

#[derive(Clone, Debug)]
pub struct ParagraphBlock {
    pub runs: Vec<InlineRun>,
    pub align: Option<String>,
    pub style: Option<String>,
}

#[derive(Clone, Debug)]
pub enum InlineRun {
    Text(TextRun),
    Footnote { footnote: String },
    Link { link: LinkBlock },
}

#[derive(Clone, Debug)]
pub struct TextRun {
    pub text: String,
    pub bold: bool,
    pub italic: bool,
    pub underline: bool,
    pub font: Option<FontSpec>,
    pub size: Option<String>,
}

#[derive(Clone, Debug)]
pub struct LinkBlock {
    pub text: String,
    pub url: String,
}

#[derive(Clone, Debug)]
pub struct TableBlock {
    pub headers: Vec<String>,
    pub rows: Vec<Vec<String>>,
    pub style: Option<String>,
    pub column_widths: Vec<String>,
}

#[derive(Clone, Debug)]
pub struct ImageBlock {
    pub path: String,
    pub width: Option<String>,
    pub alt: Option<String>,
    pub caption: Option<String>,
}

#[derive(Clone, Debug)]
pub struct TocBlock {
    pub heading_range: Option<String>,
    pub title: Option<String>,
}

#[derive(Debug)]
pub struct ColumnsBlock {
    pub count: usize,
    pub gap: Option<String>,
    pub content: Vec<ContentBlock>,
}

} // verus!
