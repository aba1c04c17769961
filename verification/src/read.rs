//! Plain-text and Markdown views of a document's index.

use vstd::prelude::*;

use crate::chars::{contains_seq, find_chars};
use crate::error::{DocliError, ErrorCode};
use crate::index::{index_outcome, DocumentIndex, HeadingView, IndexView, ParaView};
use crate::markup::{decimal, push_decimal};
use crate::package::Package;
use crate::text::{chars_of, push_str_chars, string_from_chars};

verus! {

/// The views `read` offers.
#[derive(Clone, Copy, Debug, PartialEq, Eq, Structural)]
pub enum ReadFormat {
    Json,
    Text,
    Markdown,
}

/// The arguments of `read`: the source file and the view to show.
#[derive(Debug)]
pub struct ReadArgs {
    pub source: String,
    pub as_format: ReadFormat,
}

/// What `read` reports: the source, the view's name and its content.
#[derive(Debug)]
pub struct ReadData {
    pub source: String,
    pub format: String,
    pub content: String,
}

/// The name of a view.
pub fn format_name(format: ReadFormat) -> (r: &'static str)
    ensures
        r@ == match format {
            ReadFormat::Json => "json"@,
            ReadFormat::Text => "text"@,
            ReadFormat::Markdown => "markdown"@,
        },
{
    match format {
        ReadFormat::Json => "json",
        ReadFormat::Text => "text",
        ReadFormat::Markdown => "markdown",
    }
}

/// `c` with ASCII upper case letters made lower case.
pub open spec fn ascii_lower_char(c: char) -> char {
    if 'A' <= c && c <= 'Z' {
        ((c as u32) + 32) as char
    } else {
        c
    }
}

pub open spec fn ascii_lower(s: Seq<char>) -> Seq<char> {
    s.map_values(|c: char| ascii_lower_char(c))
}

/// The heading level `read` gives a paragraph: 2 when its text mentions
/// "heading" in any ASCII case.
pub open spec fn read_heading_level(text: Seq<char>) -> Option<u8> {
    if contains_seq(ascii_lower(text), "heading"@) {
        Some(2)
    } else {
        None
    }
}

/// `c` in ASCII lower case: `A` to `Z` become `a` to `z`, everything else
/// stays.
fn ascii_lower_exec(c: char) -> (r: char)
    ensures
        r == ascii_lower_char(c),
{
    if 'A' <= c && c <= 'Z' {
        let b: u8 = c as u8;
        (b + 32) as char
    } else {
        c
    }
}

/// 2 when the text mentions "heading" in any ASCII case.
pub fn heading_level(text: &str) -> (r: Option<u8>)
    ensures
        r == read_heading_level(text@),
{
    let cs = chars_of(text);
    let mut lower: Vec<char> = Vec::new();
    let mut i: usize = 0;
    while i < cs.len()
        invariant
            0 <= i <= cs.len(),
            lower@ == ascii_lower(cs@.subrange(0, i as int)),
        decreases cs.len() - i,
    {
        lower.push(ascii_lower_exec(cs[i]));
        i = i + 1;
        assert(lower@ =~= ascii_lower(cs@.subrange(0, i as int)));
    }
    assert(cs@.subrange(0, i as int) =~= cs@);
    let needle = chars_of("heading");
    if find_chars(&lower, &needle).is_some() {
        Some(2)
    } else {
        None
    }
}

/// The lines for the headings `0 .. n`.
pub open spec fn heading_lines(hs: Seq<HeadingView>, n: int) -> Seq<char>
    decreases n,
{
    if n <= 0 {
        Seq::empty()
    } else {
        heading_lines(hs, n - 1) + "  - ["@ + decimal(hs[n - 1].level as nat) + "] "@ + hs[n - 1].text + "\n"@
    }
}

/// The plain-text summary of an index.
pub open spec fn text_view(ix: IndexView) -> Seq<char> {
    "Paragraphs: "@ + decimal(ix.paragraphs.len()) + "\n"@ + "Tables: "@ + decimal(ix.tables.len()) + "\n"@
        + "Images: "@ + decimal(ix.images.len()) + "\n"@ + "Headings:\n"@ + heading_lines(
        ix.headings,
        ix.headings.len() as int,
    )
}

pub open spec fn hashes(n: nat) -> Seq<char>
    decreases n,
{
    if n == 0 {
        Seq::empty()
    } else {
        hashes((n - 1) as nat) + "#"@
    }
}

/// The Markdown blocks for the paragraphs `0 .. n`.
pub open spec fn markdown_blocks(ps: Seq<ParaView>, n: int) -> Seq<char>
    decreases n,
{
    if n <= 0 {
        Seq::empty()
    } else {
        let t = ps[n - 1].text;
        markdown_blocks(ps, n - 1) + match read_heading_level(t) {
            Some(l) => hashes(l as nat) + " "@ + t + "\n\n"@,
            None => t + "\n\n"@,
        }
    }
}

/// The Markdown view of an index.
pub open spec fn markdown_view(ix: IndexView) -> Seq<char> {
    "# Document Read View\n\n"@ + markdown_blocks(ix.paragraphs, ix.paragraphs.len() as int)
}

/// A plain-text summary: the counts of paragraphs, tables and images, then
/// each heading with its level.
pub fn format_text(index: &DocumentIndex) -> (r: String)
    ensures
        r@ == text_view(index@),
{
    let ghost ix = index@;
    let mut out: Vec<char> = Vec::new();
    push_str_chars(&mut out, "Paragraphs: ");
    push_decimal(&mut out, index.paragraphs.len() as u64);
    push_str_chars(&mut out, "\n");
    push_str_chars(&mut out, "Tables: ");
    push_decimal(&mut out, index.tables.len() as u64);
    push_str_chars(&mut out, "\n");
    push_str_chars(&mut out, "Images: ");
    push_decimal(&mut out, index.images.len() as u64);
    push_str_chars(&mut out, "\n");
    push_str_chars(&mut out, "Headings:\n");
    let ghost head = out@;
    let mut i: usize = 0;
    while i < index.headings.len()
        invariant
            0 <= i <= index.headings.len(),
            ix == index@,
            out@ == head + heading_lines(ix.headings, i as int),
        decreases index.headings.len() - i,
    {
        let h = &index.headings[i];
        assert(ix.headings[i as int] == h@);
        push_str_chars(&mut out, "  - [");
        push_decimal(&mut out, h.level as u64);
        push_str_chars(&mut out, "] ");
        push_str_chars(&mut out, h.text.as_str());
        push_str_chars(&mut out, "\n");
        i = i + 1;
        assert(out@ =~= head + heading_lines(ix.headings, i as int));
    }
    assert(out@ =~= text_view(ix));
    string_from_chars(&out)
}

/// A Markdown view: a title, then each paragraph as a block, those that
/// mention "heading" as level-2 headings.
pub fn format_markdown(index: &DocumentIndex) -> (r: String)
    ensures
        r@ == markdown_view(index@),
{
    let ghost ix = index@;
    let mut out: Vec<char> = Vec::new();
    push_str_chars(&mut out, "# Document Read View\n\n");
    let ghost head = out@;
    let mut i: usize = 0;
    while i < index.paragraphs.len()
        invariant
            0 <= i <= index.paragraphs.len(),
            ix == index@,
            out@ == head + markdown_blocks(ix.paragraphs, i as int),
        decreases index.paragraphs.len() - i,
    {
        let p = &index.paragraphs[i];
        assert(ix.paragraphs[i as int] == p@);
        match heading_level(p.text.as_str()) {
            Some(level) => {
                let ghost before = out@;
                let mut k: u8 = 0;
                while k < level
                    invariant
                        0 <= k <= level,
                        out@ == before + hashes(k as nat),
                    decreases level - k,
                {
                    push_str_chars(&mut out, "#");
                    k = k + 1;
                    assert(out@ =~= before + hashes(k as nat));
                }
                push_str_chars(&mut out, " ");
                push_str_chars(&mut out, p.text.as_str());
                push_str_chars(&mut out, "\n\n");
            },
            None => {
                push_str_chars(&mut out, p.text.as_str());
                push_str_chars(&mut out, "\n\n");
            },
        }
        i = i + 1;
        assert(out@ =~= head + markdown_blocks(ix.paragraphs, i as int));
    }
    string_from_chars(&out)
}

/// What `read` indexes: the main document part, or the error.
pub open spec fn read_index_outcome(pkg: &Package) -> Result<IndexView, (ErrorCode, Seq<char>)> {
    match pkg.xml("word/document.xml"@) {
        None => Err((ErrorCode::InvalidDocx, "missing word/document.xml"@)),
        Some(b) => match index_outcome(b, None) {
            Ok(v) => Ok(v),
            Err(e) => Err((ErrorCode::InvalidDocx, e)),
        },
    }
}

/// The index of the package's main document part.
pub fn read_index(package: &Package) -> (r: Result<DocumentIndex, DocliError>)
    ensures
        match read_index_outcome(package) {
            Ok(v) => r matches Ok(i) && i@ == v,
            Err(e) => r matches Err(x) && x.view_pair() == e,
        },
{
    match package.xml_part("word/document.xml") {
        Some(b) => DocumentIndex::build(b.as_slice()),
        None => Err(DocliError::InvalidDocx { message: String::from_str("missing word/document.xml") }),
    }
}

/// The text summary opens with three count lines taken from the index:
/// `Paragraphs: ` and the number of paragraphs, `Tables: ` and the number of
/// tables, `Images: ` and the number of images, each in decimal and ended by a
/// line feed; then `Headings:` on a line of its own, and after it one line
/// per heading, nothing when there is none.
pub proof fn law_summary_counts(ix: IndexView)
    ensures
        ({
            let head = "Paragraphs: "@ + decimal(ix.paragraphs.len()) + "\n"@ + "Tables: "@ + decimal(
                ix.tables.len(),
            ) + "\n"@ + "Images: "@ + decimal(ix.images.len()) + "\n"@ + "Headings:\n"@;
            let t = text_view(ix);
            &&& head.len() <= t.len()
            &&& t.subrange(0, head.len() as int) == head
            &&& ix.headings.len() == 0 ==> t == head
        }),
{
    let head = "Paragraphs: "@ + decimal(ix.paragraphs.len()) + "\n"@ + "Tables: "@ + decimal(ix.tables.len())
        + "\n"@ + "Images: "@ + decimal(ix.images.len()) + "\n"@ + "Headings:\n"@;
    let t = text_view(ix);
    let rest = heading_lines(ix.headings, ix.headings.len() as int);
    assert(t =~= head + rest);
    assert(t.subrange(0, head.len() as int) =~= head);
    if ix.headings.len() == 0 {
        assert(rest =~= Seq::<char>::empty());
        assert(t =~= head);
    }
}

/// Each heading adds one line to the text summary: with a heading `h`
/// appended to the index, the summary is the former one followed by
/// `  - [`, the level in decimal, `] `, the heading's text and a line feed.
pub proof fn law_summary_heading_line(ix: IndexView, h: HeadingView)
    ensures
        text_view(IndexView { headings: ix.headings.push(h), ..ix }) == text_view(ix) + "  - ["@ + decimal(
            h.level as nat,
        ) + "] "@ + h.text + "\n"@,
{
    let hs = ix.headings.push(h);
    let n = hs.len() as int;
    assert(heading_lines(hs, n - 1) == heading_lines(ix.headings, n - 1)) by {
        lemma_heading_lines_prefix(hs, ix.headings, n - 1);
    }
    let ix2 = IndexView { headings: hs, ..ix };
    assert(text_view(ix2) =~= text_view(ix) + "  - ["@ + decimal(h.level as nat) + "] "@ + h.text + "\n"@);
}

proof fn lemma_heading_lines_prefix(a: Seq<HeadingView>, b: Seq<HeadingView>, n: int)
    requires
        n <= a.len(),
        n <= b.len(),
        forall|i: int| 0 <= i < n ==> a[i] == b[i],
    ensures
        heading_lines(a, n) == heading_lines(b, n),
    decreases n,
{
    if n > 0 {
        lemma_heading_lines_prefix(a, b, n - 1);
    }
}

} // verus!
