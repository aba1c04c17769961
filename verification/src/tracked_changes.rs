//! Tracked-change (revision) markup: insertions and deletions.

use vstd::prelude::*;

use crate::markup::{decimal, escape_xml_chars, push_decimal, push_escaped};
use crate::text::{chars_of, push_str_chars, string_from_chars};

verus! {

/// Text with a leading or trailing space must keep its white space.
pub open spec fn needs_space_preserve(s: Seq<char>) -> bool {
    s.len() > 0 && (s[0] == ' ' || s.last() == ' ')
}

pub open spec fn space_attr(s: Seq<char>) -> Seq<char> {
    if needs_space_preserve(s) {
        " xml:space=\"preserve\""@
    } else {
        Seq::empty()
    }
}

pub open spec fn opt_chars(o: Option<&str>) -> Seq<char> {
    match o {
        Some(p) => p@,
        None => Seq::empty(),
    }
}

/// The opening of a revision element: `<w:TAG w:id=".." w:author=".." w:date="..">`.
pub open spec fn revision_open(tag: Seq<char>, id: u64, author: Seq<char>, date: Seq<char>) -> Seq<char> {
    "<w:"@ + tag + " w:id=\""@ + decimal(id as nat) + "\" w:author=\""@ + escape_xml_chars(author)
        + "\" w:date=\""@ + date + "\">"@
}

/// The markup of a tracked insertion of `content`.
pub open spec fn insertion_markup(
    content: Seq<char>,
    rpr: Seq<char>,
    id: u64,
    author: Seq<char>,
    date: Seq<char>,
) -> Seq<char> {
    revision_open("ins"@, id, author, date) + "<w:r>"@ + rpr + "<w:t"@ + space_attr(content) + ">"@
        + escape_xml_chars(content) + "</w:t></w:r></w:ins>"@
}

/// The markup of a tracked deletion of `text`.
pub open spec fn deletion_markup(
    text: Seq<char>,
    rpr: Seq<char>,
    id: u64,
    author: Seq<char>,
    date: Seq<char>,
) -> Seq<char> {
    revision_open("del"@, id, author, date) + "<w:r>"@ + rpr + "<w:delText"@ + space_attr(text)
        + ">"@ + escape_xml_chars(text) + "</w:delText></w:r></w:del>"@
}

fn push_space_attr(out: &mut Vec<char>, s: &str)
    ensures
        final(out)@ == old(out)@ + space_attr(s@),
{
    let cs = chars_of(s);
    if cs.len() > 0 && (cs[0] == ' ' || cs[cs.len() - 1] == ' ') {
        push_str_chars(out, " xml:space=\"preserve\"");
    } else {
        assert(out@ =~= old(out)@ + space_attr(s@));
    }
}

fn push_revision_open(out: &mut Vec<char>, tag: &str, id: u64, author: &str, date: &str)
    ensures
        final(out)@ == old(out)@ + revision_open(tag@, id, author@, date@),
{
    push_str_chars(out, "<w:");
    push_str_chars(out, tag);
    push_str_chars(out, " w:id=\"");
    push_decimal(out, id);
    push_str_chars(out, "\" w:author=\"");
    push_escaped(out, author);
    push_str_chars(out, "\" w:date=\"");
    push_str_chars(out, date);
    push_str_chars(out, "\">");
    assert(out@ =~= old(out)@ + revision_open(tag@, id, author@, date@));
}

/// Builds a `<w:ins>` element holding one run with `content`.
pub fn build_tracked_insertion(
    content: &str,
    run_props: Option<&str>,
    id: u64,
    author: &str,
    date: &str,
) -> (r: String)
    ensures
        r@ == insertion_markup(content@, opt_chars(run_props), id, author@, date@),
{
    let mut out: Vec<char> = Vec::new();
    push_revision_open(&mut out, "ins", id, author, date);
    push_str_chars(&mut out, "<w:r>");
    match run_props {
        Some(p) => push_str_chars(&mut out, p),
        None => {},
    }
    push_str_chars(&mut out, "<w:t");
    push_space_attr(&mut out, content);
    push_str_chars(&mut out, ">");
    push_escaped(&mut out, content);
    push_str_chars(&mut out, "</w:t></w:r></w:ins>");
    assert(out@ =~= insertion_markup(content@, opt_chars(run_props), id, author@, date@));
    string_from_chars(&out)
}

/// Builds a `<w:del>` element holding one run with `deleted_text`.
pub fn build_tracked_deletion(
    deleted_text: &str,
    run_props: Option<&str>,
    id: u64,
    author: &str,
    date: &str,
) -> (r: String)
    ensures
        r@ == deletion_markup(deleted_text@, opt_chars(run_props), id, author@, date@),
{
    let mut out: Vec<char> = Vec::new();
    push_revision_open(&mut out, "del", id, author, date);
    push_str_chars(&mut out, "<w:r>");
    match run_props {
        Some(p) => push_str_chars(&mut out, p),
        None => {},
    }
    push_str_chars(&mut out, "<w:delText");
    push_space_attr(&mut out, deleted_text);
    push_str_chars(&mut out, ">");
    push_escaped(&mut out, deleted_text);
    push_str_chars(&mut out, "</w:delText></w:r></w:del>");
    assert(out@ =~= deletion_markup(deleted_text@, opt_chars(run_props), id, author@, date@));
    string_from_chars(&out)
}

} // verus!
