//! Creating a new document from a list of content blocks with `docx-rs`.
//!
//! Each block becomes paragraphs or a table of the document body; what each
//! `docx-rs` builder call adds is stated over a plain model of the body.

use docx_rs::{BreakType, Docx, Paragraph, Run, Table, TableCell, TableRow};
use vstd::prelude::*;

use crate::error::{DocliError, ErrorCode};
use crate::job::{ContentBlock, InlineRun, ParagraphContent, TableBlock};

verus! {

/// Page size, orientation and margins of a document to create.
#[derive(Clone, Debug)]
pub struct PageSetup {
    pub size: Option<String>,
    pub orientation: Option<String>,
    pub margins: Option<Margins>,
}

#[derive(Clone, Debug)]
pub struct Margins {
    pub top: Option<String>,
    pub bottom: Option<String>,
    pub left: Option<String>,
    pub right: Option<String>,
}

/// What to create: an optional title, the page setup, the content blocks and
/// the template variables (each a name and the JSON text of its value).
#[derive(Debug)]
pub struct CreateSpec {
    pub title: Option<String>,
    pub page: PageSetup,
    pub content: Vec<ContentBlock>,
    pub vars: Vec<(String, String)>,
}

#[verifier::external_type_specification]
#[verifier::external_body]
pub struct ExDocx(Docx);

#[verifier::external_type_specification]
#[verifier::external_body]
pub struct ExParagraph(Paragraph);

#[verifier::external_type_specification]
#[verifier::external_body]
pub struct ExRun(Run);

#[verifier::external_type_specification]
#[verifier::external_body]
pub struct ExTable(Table);

#[verifier::external_type_specification]
#[verifier::external_body]
pub struct ExTableRow(TableRow);

#[verifier::external_type_specification]
#[verifier::external_body]
pub struct ExTableCell(TableCell);

/// One child of a run.
pub enum RunPiece {
    Text(Seq<char>),
    PageBreak,
}

/// A run: its bold and italic flags and its children in order.
pub struct RunView {
    pub bold: bool,
    pub italic: bool,
    pub pieces: Seq<RunPiece>,
}

/// A paragraph: its style and its runs in order.
pub struct ParaView {
    pub style: Option<Seq<char>>,
    pub runs: Seq<RunView>,
}

/// One child of the document body. A table is its rows, each row its cells,
/// each cell its paragraphs.
pub enum BodyItem {
    Paragraph(ParaView),
    Table(Seq<Seq<Seq<ParaView>>>),
}

/// What a `docx_rs::Run` holds.
pub uninterp spec fn run_content(r: Run) -> RunView;

/// What a `docx_rs::Paragraph` holds.
pub uninterp spec fn paragraph_content(p: Paragraph) -> ParaView;

/// The paragraphs of a `docx_rs::TableCell`.
pub uninterp spec fn cell_content(c: TableCell) -> Seq<ParaView>;

/// The cells of a `docx_rs::TableRow`.
pub uninterp spec fn row_content(r: TableRow) -> Seq<Seq<ParaView>>;

/// The rows of a `docx_rs::Table`.
pub uninterp spec fn table_content(t: Table) -> Seq<Seq<Seq<ParaView>>>;

/// The children of the body of a `docx_rs::Docx`.
pub uninterp spec fn docx_body(d: Docx) -> Seq<BodyItem>;

/// `t` with its line feeds taken out, as `Run::add_text` stores it.
pub open spec fn without_newlines(t: Seq<char>) -> Seq<char> {
    t.filter(|c: char| c != '\n')
}

/// `Run::new()`: a run with no flags and no children.
#[verifier::external_body]
fn run_new() -> (r: Run)
    ensures
        run_content(r) == (RunView { bold: false, italic: false, pieces: Seq::empty() }),
{
    Run::new()
}

/// `Run::add_text`: appends the text, line feeds taken out.
#[verifier::external_body]
fn run_add_text(r: Run, text: &str) -> (out: Run)
    ensures
        run_content(out) == (RunView {
            pieces: run_content(r).pieces.push(RunPiece::Text(without_newlines(text@))),
            ..run_content(r)
        }),
{
    r.add_text(text)
}

/// `Run::add_break(BreakType::Page)`: appends a page break.
#[verifier::external_body]
fn run_add_page_break(r: Run) -> (out: Run)
    ensures
        run_content(out) == (RunView { pieces: run_content(r).pieces.push(RunPiece::PageBreak), ..run_content(r) }),
{
    r.add_break(BreakType::Page)
}

/// `Run::bold`: sets the bold flag.
#[verifier::external_body]
fn run_bold(r: Run) -> (out: Run)
    ensures
        run_content(out) == (RunView { bold: true, ..run_content(r) }),
{
    r.bold()
}

/// `Run::italic`: sets the italic flag.
#[verifier::external_body]
fn run_italic(r: Run) -> (out: Run)
    ensures
        run_content(out) == (RunView { italic: true, ..run_content(r) }),
{
    r.italic()
}

/// `Paragraph::new()`: no style and no runs.
#[verifier::external_body]
fn paragraph_new() -> (p: Paragraph)
    ensures
        paragraph_content(p) == (ParaView { style: None, runs: Seq::empty() }),
{
    Paragraph::new()
}

/// `Paragraph::add_run`: appends the run.
#[verifier::external_body]
fn paragraph_add_run(p: Paragraph, r: Run) -> (out: Paragraph)
    ensures
        paragraph_content(out) == (ParaView {
            runs: paragraph_content(p).runs.push(run_content(r)),
            ..paragraph_content(p)
        }),
{
    p.add_run(r)
}

/// `Paragraph::style`: sets the paragraph style.
#[verifier::external_body]
fn paragraph_style(p: Paragraph, style: &str) -> (out: Paragraph)
    ensures
        paragraph_content(out) == (ParaView { style: Some(style@), ..paragraph_content(p) }),
{
    p.style(style)
}

/// `TableCell::new()`: no paragraphs.
#[verifier::external_body]
fn cell_new() -> (c: TableCell)
    ensures
        cell_content(c) == Seq::<ParaView>::empty(),
{
    TableCell::new()
}

/// `TableCell::add_paragraph`: appends the paragraph.
#[verifier::external_body]
fn cell_add_paragraph(c: TableCell, p: Paragraph) -> (out: TableCell)
    ensures
        cell_content(out) == cell_content(c).push(paragraph_content(p)),
{
    c.add_paragraph(p)
}

/// `TableRow::new`: a row of the given cells.
#[verifier::external_body]
fn row_new(cells: Vec<TableCell>) -> (r: TableRow)
    ensures
        row_content(r) == cells@.map_values(|c: TableCell| cell_content(c)),
{
    TableRow::new(cells)
}

/// `Table::new`: a table of the given rows.
#[verifier::external_body]
fn table_new(rows: Vec<TableRow>) -> (t: Table)
    ensures
        table_content(t) == rows@.map_values(|r: TableRow| row_content(r)),
{
    Table::new(rows)
}

/// `Docx::new()`: an empty body.
#[verifier::external_body]
fn docx_new() -> (d: Docx)
    ensures
        docx_body(d) == Seq::<BodyItem>::empty(),
{
    Docx::new()
}

/// `Docx::add_paragraph`: appends the paragraph to the body.
#[verifier::external_body]
fn docx_add_paragraph(d: Docx, p: Paragraph) -> (out: Docx)
    ensures
        docx_body(out) == docx_body(d).push(BodyItem::Paragraph(paragraph_content(p))),
{
    d.add_paragraph(p)
}

/// `Docx::add_table`: appends the table to the body.
#[verifier::external_body]
fn docx_add_table(d: Docx, t: Table) -> (out: Docx)
    ensures
        docx_body(out) == docx_body(d).push(BodyItem::Table(table_content(t))),
{
    d.add_table(t)
}

/// The signature that opens a zip local file header, `PK\x03\x04`.
pub open spec fn zip_local_header_magic() -> Seq<u8> {
    seq![0x50u8, 0x4Bu8, 0x03u8, 0x04u8]
}

/// `Docx::build` then `XMLDocx::pack` into memory: the bytes of the package,
/// or the text of the zip error. `pack` writes into a fresh buffer through a
/// new `zip::ZipWriter`, whose first act is to add the directory `word/`, so
/// a package that was written starts with a local file header and its
/// signature. The rest of the bytes is not stated: they hold the
/// `w14:paraId` that `Paragraph::new` drew from a counter of the calling
/// thread, so two documents with the same body can pack differently.
#[verifier::external_body]
fn docx_pack(d: Docx) -> (r: Result<Vec<u8>, String>)
    ensures
        r matches Ok(b) ==> b@.len() >= 4 && b@.subrange(0, 4) == zip_local_header_magic(),
{
    let mut buf = Vec::new();
    d.build().pack(&mut std::io::Cursor::new(&mut buf)).map_err(|e| e.to_string())?;
    Ok(buf)
}

/// A run holding `t`, with the given flags.
pub open spec fn text_run(t: Seq<char>, bold: bool, italic: bool) -> RunView {
    RunView { bold, italic, pieces: seq![RunPiece::Text(without_newlines(t))] }
}

/// A paragraph of one plain run holding `t`, in `style`.
pub open spec fn text_para(t: Seq<char>, style: Option<Seq<char>>) -> ParaView {
    ParaView { style, runs: seq![text_run(t, false, false)] }
}

/// The runs made from the text runs among `runs`; footnotes and links make none.
pub open spec fn block_runs(runs: Seq<InlineRun>) -> Seq<RunView>
    decreases runs.len(),
{
    if runs.len() == 0 {
        Seq::empty()
    } else {
        let prev = block_runs(runs.drop_last());
        match runs.last() {
            InlineRun::Text(tr) => prev.push(text_run(tr.text@, tr.bold, tr.italic)),
            _ => prev,
        }
    }
}

/// One paragraph per item, each in `style`.
pub open spec fn list_items(items: Seq<String>, style: Seq<char>) -> Seq<BodyItem> {
    items.map_values(|s: String| BodyItem::Paragraph(text_para(s@, Some(style))))
}

/// The header row of a table: one cell per header, each a paragraph of one
/// bold run.
pub open spec fn header_row(headers: Seq<String>) -> Seq<Seq<ParaView>> {
    headers.map_values(|h: String| seq![ParaView { style: None, runs: seq![text_run(h@, true, false)] }])
}

/// A body row of a table: one cell per value, each a paragraph of one run.
pub open spec fn body_row(row: Seq<String>) -> Seq<Seq<ParaView>> {
    row.map_values(|c: String| seq![text_para(c@, None)])
}

/// The rows of a table: the header row when there are headers, then the
/// body rows.
pub open spec fn table_rows(t: TableBlock) -> Seq<Seq<Seq<ParaView>>> {
    let body = t.rows@.map_values(|r: Vec<String>| body_row(r@));
    if t.headers.len() > 0 {
        seq![header_row(t.headers@)] + body
    } else {
        body
    }
}

/// What a content block adds to the body. Headings, paragraphs, list items,
/// tables and page breaks are written; references, images, tables of
/// contents, column sections and a `page_break: false` add nothing.
pub open spec fn block_items(block: ContentBlock) -> Seq<BodyItem> {
    match block {
        ContentBlock::Heading1 { heading1 } => seq![BodyItem::Paragraph(text_para(heading1@, Some("Heading1"@)))],
        ContentBlock::Heading2 { heading2 } => seq![BodyItem::Paragraph(text_para(heading2@, Some("Heading2"@)))],
        ContentBlock::Heading3 { heading3 } => seq![BodyItem::Paragraph(text_para(heading3@, Some("Heading3"@)))],
        ContentBlock::Paragraph { paragraph } => match paragraph {
            ParagraphContent::Text(t) => seq![BodyItem::Paragraph(text_para(t@, None))],
            ParagraphContent::Block(b) => seq![
                BodyItem::Paragraph(
                    ParaView {
                        style: match b.style {
                            Some(s) => Some(s@),
                            None => None,
                        },
                        runs: block_runs(b.runs@),
                    },
                ),
            ],
        },
        ContentBlock::Bullets { bullets } => list_items(bullets@, "ListBullet"@),
        ContentBlock::Numbers { numbers } => list_items(numbers@, "ListNumber"@),
        ContentBlock::Table { table } => seq![BodyItem::Table(table_rows(table))],
        ContentBlock::PageBreak { page_break } => if page_break {
            seq![
                BodyItem::Paragraph(
                    ParaView {
                        style: None,
                        runs: seq![RunView { bold: false, italic: false, pieces: seq![RunPiece::PageBreak] }],
                    },
                ),
            ]
        } else {
            Seq::empty()
        },
        _ => Seq::empty(),
    }
}

/// What a list of content blocks adds to the body, block after block.
pub open spec fn blocks_items(blocks: Seq<ContentBlock>) -> Seq<BodyItem>
    decreases blocks.len(),
{
    if blocks.len() == 0 {
        Seq::empty()
    } else {
        blocks_items(blocks.drop_last()) + block_items(blocks.last())
    }
}

/// Creating from two lists of blocks one after the other gives the body of
/// the first followed by the body of the second.
pub proof fn law_blocks_concatenate(a: Seq<ContentBlock>, b: Seq<ContentBlock>)
    ensures
        blocks_items(a + b) == blocks_items(a) + blocks_items(b),
    decreases b.len(),
{
    if b.len() == 0 {
        assert(a + b =~= a);
        assert(blocks_items(a) + blocks_items(b) =~= blocks_items(a));
    } else {
        law_blocks_concatenate(a, b.drop_last());
        assert((a + b).drop_last() =~= a + b.drop_last());
        assert((a + b).last() == b.last());
        assert(blocks_items(a) + blocks_items(b) =~= blocks_items(a) + blocks_items(b.drop_last()) + block_items(
            b.last(),
        ));
    }
}

/// A paragraph of one run holding `text`, in `style` when one is given.
fn text_paragraph(text: &str, style: Option<&str>) -> (p: Paragraph)
    ensures
        paragraph_content(p) == text_para(
            text@,
            match style {
                Some(s) => Some(s@),
                None => None,
            },
        ),
{
    let p = paragraph_add_run(paragraph_new(), run_add_text(run_new(), text));
    match style {
        Some(s) => paragraph_style(p, s),
        None => p,
    }
}

/// Appends one paragraph per item, each in `style`.
fn append_list(docx: Docx, items: &Vec<String>, style: &str) -> (out: Docx)
    ensures
        docx_body(out) == docx_body(docx) + list_items(items@, style@),
{
    let mut docx = docx;
    let ghost start = docx_body(docx);
    let mut i: usize = 0;
    while i < items.len()
        invariant
            0 <= i <= items.len(),
            docx_body(docx) == start + list_items(items@.subrange(0, i as int), style@),
        decreases items.len() - i,
    {
        docx = docx_add_paragraph(docx, text_paragraph(items[i].as_str(), Some(style)));
        assert(list_items(items@.subrange(0, i + 1), style@) =~= list_items(items@.subrange(0, i as int), style@).push(
            BodyItem::Paragraph(text_para(items@[i as int]@, Some(style@))),
        ));
        i = i + 1;
    }
    assert(items@.subrange(0, i as int) =~= items@);
    docx
}

/// The cells of a row: one per value, each a paragraph of one run, bold
/// when `bold`.
fn row_cells(values: &Vec<String>, bold: bool) -> (cells: Vec<TableCell>)
    ensures
        cells@.map_values(|c: TableCell| cell_content(c)) == values@.map_values(
            |v: String| seq![ParaView { style: None, runs: seq![text_run(v@, bold, false)] }],
        ),
{
    let mut cells: Vec<TableCell> = Vec::new();
    let mut i: usize = 0;
    while i < values.len()
        invariant
            0 <= i <= values.len(),
            cells@.map_values(|c: TableCell| cell_content(c)) == values@.subrange(0, i as int).map_values(
                |v: String| seq![ParaView { style: None, runs: seq![text_run(v@, bold, false)] }],
            ),
        decreases values.len() - i,
    {
        let r = run_add_text(run_new(), values[i].as_str());
        let r = if bold {
            run_bold(r)
        } else {
            r
        };
        let cell = cell_add_paragraph(cell_new(), paragraph_add_run(paragraph_new(), r));
        let ghost before = cells@;
        cells.push(cell);
        assert(cells@.map_values(|c: TableCell| cell_content(c)) =~= before.map_values(
            |c: TableCell| cell_content(c),
        ).push(cell_content(cell)));
        assert(values@.subrange(0, i + 1).map_values(
            |v: String| seq![ParaView { style: None, runs: seq![text_run(v@, bold, false)] }],
        ) =~= values@.subrange(0, i as int).map_values(
            |v: String| seq![ParaView { style: None, runs: seq![text_run(v@, bold, false)] }],
        ).push(seq![ParaView { style: None, runs: seq![text_run(values@[i as int]@, bold, false)] }]));
        i = i + 1;
    }
    assert(values@.subrange(0, i as int) =~= values@);
    cells
}

/// The table for a table block.
fn block_table(table: &TableBlock) -> (t: Table)
    ensures
        table_content(t) == table_rows(*table),
{
    let mut rows: Vec<TableRow> = Vec::new();
    if table.headers.len() > 0 {
        let cells = row_cells(&table.headers, true);
        assert(cells@.map_values(|c: TableCell| cell_content(c)) =~= header_row(table.headers@));
        rows.push(row_new(cells));
    }
    let ghost head = rows@.map_values(|r: TableRow| row_content(r));
    let mut i: usize = 0;
    while i < table.rows.len()
        invariant
            0 <= i <= table.rows.len(),
            head == (if table.headers.len() > 0 {
                seq![header_row(table.headers@)]
            } else {
                Seq::empty()
            }),
            rows@.map_values(|r: TableRow| row_content(r)) == head + table.rows@.subrange(0, i as int).map_values(
                |r: Vec<String>| body_row(r@),
            ),
        decreases table.rows.len() - i,
    {
        let cells = row_cells(&table.rows[i], false);
        assert(cells@.map_values(|c: TableCell| cell_content(c)) =~= body_row(table.rows@[i as int]@));
        let row = row_new(cells);
        let ghost before = rows@;
        rows.push(row);
        assert(rows@.map_values(|r: TableRow| row_content(r)) =~= before.map_values(|r: TableRow| row_content(r)).push(
            row_content(row),
        ));
        assert(table.rows@.subrange(0, i + 1).map_values(|r: Vec<String>| body_row(r@)) =~= table.rows@.subrange(
            0,
            i as int,
        ).map_values(|r: Vec<String>| body_row(r@)).push(body_row(table.rows@[i as int]@)));
        i = i + 1;
    }
    assert(table.rows@.subrange(0, i as int) =~= table.rows@);
    table_new(rows)
}

/// The paragraph for a paragraph given as runs: its style, then one run per
/// text run, bold and italic as given.
fn block_paragraph(style: &Option<String>, runs: &Vec<InlineRun>) -> (p: Paragraph)
    ensures
        paragraph_content(p) == (ParaView {
            style: match *style {
                Some(s) => Some(s@),
                None => None,
            },
            runs: block_runs(runs@),
        }),
{
    let mut para = paragraph_new();
    match style {
        Some(s) => {
            para = paragraph_style(para, s.as_str());
        },
        None => {},
    }
    let mut i: usize = 0;
    while i < runs.len()
        invariant
            0 <= i <= runs.len(),
            paragraph_content(para) == (ParaView {
                style: match *style {
                    Some(s) => Some(s@),
                    None => None,
                },
                runs: block_runs(runs@.subrange(0, i as int)),
            }),
        decreases runs.len() - i,
    {
        assert(runs@.subrange(0, i + 1).drop_last() =~= runs@.subrange(0, i as int));
        match &runs[i] {
            InlineRun::Text(text_run) => {
                let mut r = run_add_text(run_new(), text_run.text.as_str());
                if text_run.bold {
                    r = run_bold(r);
                }
                if text_run.italic {
                    r = run_italic(r);
                }
                para = paragraph_add_run(para, r);
            },
            _ => {},
        }
        i = i + 1;
    }
    assert(runs@.subrange(0, i as int) =~= runs@);
    para
}

/// Appends what a content block stands for to the document body.
pub fn append_block(docx: Docx, block: &ContentBlock) -> (out: Docx)
    ensures
        docx_body(out) == docx_body(docx) + block_items(*block),
{
    let mut docx = docx;
    let ghost start = docx_body(docx);
    match block {
        ContentBlock::Heading1 { heading1 } => {
            docx = docx_add_paragraph(docx, text_paragraph(heading1.as_str(), Some("Heading1")));
        },
        ContentBlock::Heading2 { heading2 } => {
            docx = docx_add_paragraph(docx, text_paragraph(heading2.as_str(), Some("Heading2")));
        },
        ContentBlock::Heading3 { heading3 } => {
            docx = docx_add_paragraph(docx, text_paragraph(heading3.as_str(), Some("Heading3")));
        },
        ContentBlock::Paragraph { paragraph } => match paragraph {
            ParagraphContent::Text(text) => {
                docx = docx_add_paragraph(docx, text_paragraph(text.as_str(), None));
            },
            ParagraphContent::Block(b) => {
                docx = docx_add_paragraph(docx, block_paragraph(&b.style, &b.runs));
            },
        },
        ContentBlock::Bullets { bullets } => {
            docx = append_list(docx, bullets, "ListBullet");
        },
        ContentBlock::Numbers { numbers } => {
            docx = append_list(docx, numbers, "ListNumber");
        },
        ContentBlock::Table { table } => {
            docx = docx_add_table(docx, block_table(table));
        },
        ContentBlock::PageBreak { page_break } => {
            if *page_break {
                let r = run_add_page_break(run_new());
                docx = docx_add_paragraph(docx, paragraph_add_run(paragraph_new(), r));
            }
        },
        _ => {},
    }
    assert(docx_body(docx) =~= start + block_items(*block));
    docx
}

/// The document for a list of content blocks, block after block.
pub fn build_docx(content: &Vec<ContentBlock>) -> (d: Docx)
    ensures
        docx_body(d) == blocks_items(content@),
{
    let mut docx = docx_new();
    let mut i: usize = 0;
    while i < content.len()
        invariant
            0 <= i <= content.len(),
            docx_body(docx) == blocks_items(content@.subrange(0, i as int)),
        decreases content.len() - i,
    {
        assert(content@.subrange(0, i + 1).drop_last() =~= content@.subrange(0, i as int));
        docx = append_block(docx, &content[i]);
        i = i + 1;
    }
    assert(content@.subrange(0, i as int) =~= content@);
    docx
}

/// A way to turn a spec into the bytes of a document.
pub trait CreateBackend {
    /// The bytes of the document that `spec` describes.
    fn create(&self, spec: &CreateSpec) -> Result<Vec<u8>, DocliError>;
}

/// Creates documents with `docx-rs`.
#[derive(Debug)]
pub struct DocxRsBackend;

impl CreateBackend for DocxRsBackend {
    /// Packs the document of `build_docx(&spec.content)`: the bytes of a zip
    /// package; a packing failure is reported as `CommitFailed` with the zip
    /// error's text. Which bytes follow the first header is left to `docx-rs`
    /// and `zip` (see `docx_pack`).
    fn create(&self, spec: &CreateSpec) -> (r: Result<Vec<u8>, DocliError>)
        ensures
            r matches Ok(b) ==> b@.len() >= 4 && b@.subrange(0, 4) == zip_local_header_magic(),
            r matches Err(e) ==> e.spec_code() == ErrorCode::CommitFailed,
    {
        let docx = build_docx(&spec.content);
        match docx_pack(docx) {
            Ok(bytes) => Ok(bytes),
            Err(message) => Err(DocliError::CommitFailed { message }),
        }
    }
}

} // verus!
