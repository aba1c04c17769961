//! Review comments: anchoring a comment to a span of a part, replies, and
//! marking comments resolved.

use vstd::prelude::*;
use vstd::utf8::{encode_utf8, is_char_boundary, valid_utf8};

use crate::bytes::{
    extend_range, find_bytes, first_match, is_valid_utf8, last_match, rfind_bytes, str_bytes,
    utf8_error_message, utf8_error_text,
};
use crate::error::{DocliError, ErrorCode};
use crate::markup::{chars_utf8, decimal, escape_xml_chars, push_decimal, push_escaped};
use crate::part_graph::{PartData, PartGraph};
use crate::text::{chars_of, concat_message, push_str_chars, string_from_chars};

verus! {

/// Path of the comments part.
pub open spec fn comments_part() -> Seq<char> {
    "word/comments.xml"@
}

/// The `<w:comment>` element of a comment.
pub open spec fn comment_element_markup(
    id: u64,
    author: Seq<char>,
    date: Seq<char>,
    text: Seq<char>,
    initials: Option<Seq<char>>,
) -> Seq<char> {
    "<w:comment w:id=\""@ + decimal(id as nat) + "\" w:author=\""@ + escape_xml_chars(author)
        + "\" w:date=\""@ + date + "\""@ + match initials {
        Some(i) => " w:initials=\""@ + escape_xml_chars(i) + "\""@,
        None => Seq::empty(),
    } + "><w:p><w:r><w:t>"@ + escape_xml_chars(text) + "</w:t></w:r></w:p></w:comment>"@
}

pub open spec fn range_start_markup(id: u64) -> Seq<char> {
    "<w:commentRangeStart w:id=\""@ + decimal(id as nat) + "\"/>"@
}

pub open spec fn range_end_markup(id: u64) -> Seq<char> {
    "<w:commentRangeEnd w:id=\""@ + decimal(id as nat) + "\"/>"@
}

pub open spec fn reference_markup(id: u64) -> Seq<char> {
    "<w:r><w:rPr><w:rStyle w:val=\"CommentReference\"/></w:rPr><w:commentReference w:id=\""@
        + decimal(id as nat) + "\"/></w:r>"@
}

/// An empty comments part.
pub open spec fn comments_skeleton() -> Seq<u8> {
    encode_utf8(
        "<?xml version=\"1.0\" encoding=\"UTF-8\" standalone=\"yes\"?><w:comments xmlns:w=\""@
            + "http://schemas.openxmlformats.org/wordprocessingml/2006/main"@
            + "\"></w:comments>"@,
    )
}

/// `xml` with the span `[start, end)` wrapped in comment range markers and
/// followed by the comment reference run.
pub open spec fn anchored(xml: Seq<u8>, start: int, end: int, id: u64) -> Seq<u8> {
    xml.subrange(0, start) + encode_utf8(range_start_markup(id)) + xml.subrange(start, end)
        + encode_utf8(range_end_markup(id)) + encode_utf8(reference_markup(id)) + xml.subrange(
        end,
        xml.len() as int,
    )
}

pub open spec fn comments_close_tag() -> Seq<u8> {
    encode_utf8("</w:comments>"@)
}

/// `comments` with `element` inserted before its last `</w:comments>`.
pub open spec fn with_comment(comments: Seq<u8>, element: Seq<u8>) -> Option<Seq<u8>> {
    match last_match(comments, comments_close_tag()) {
        Some(p) => Some(comments.subrange(0, p) + element + comments.subrange(p, comments.len() as int)),
        None => None,
    }
}

/// The comments part as it is once one exists: the present one, else an empty one.
pub open spec fn comments_or_skeleton(g: &PartGraph) -> Seq<u8> {
    match g.xml(comments_part()) {
        Some(c) => c,
        None => comments_skeleton(),
    }
}

pub open spec fn err_pair<T>(r: Result<T, DocliError>) -> Option<(ErrorCode, Seq<char>)> {
    match r {
        Ok(_) => None,
        Err(e) => Some(e.view_pair()),
    }
}

/// What inserting `element` into the comments part of `g` (created if absent)
/// gives: the error, if any, and the final comments bytes.
pub open spec fn insert_outcome(g: &PartGraph, element: Seq<u8>) -> (Option<(ErrorCode, Seq<char>)>, Seq<u8>) {
    let c = comments_or_skeleton(g);
    if !valid_utf8(c) {
        (Some((ErrorCode::InvalidDocx, "invalid UTF-8 in comments.xml: "@ + utf8_error_text(c))), c)
    } else {
        match with_comment(c, element) {
            None => (
                Some((ErrorCode::InvalidDocx, "malformed comments.xml: missing </w:comments>"@)),
                c,
            ),
            Some(n) => (None, n),
        }
    }
}

/// Builds a `<w:comment>` element.
fn comment_element(
    comment_id: u64,
    author: &str,
    date: &str,
    text: &str,
    initials: Option<&str>,
) -> (r: String)
    ensures
        r@ == comment_element_markup(
            comment_id,
            author@,
            date@,
            text@,
            match initials {
                Some(i) => Some(i@),
                None => None,
            },
        ),
{
    let mut out: Vec<char> = Vec::new();
    push_str_chars(&mut out, "<w:comment w:id=\"");
    push_decimal(&mut out, comment_id);
    push_str_chars(&mut out, "\" w:author=\"");
    push_escaped(&mut out, author);
    push_str_chars(&mut out, "\" w:date=\"");
    push_str_chars(&mut out, date);
    push_str_chars(&mut out, "\"");
    match initials {
        Some(i) => {
            push_str_chars(&mut out, " w:initials=\"");
            push_escaped(&mut out, i);
            push_str_chars(&mut out, "\"");
        },
        None => {},
    }
    push_str_chars(&mut out, "><w:p><w:r><w:t>");
    push_escaped(&mut out, text);
    push_str_chars(&mut out, "</w:t></w:r></w:p></w:comment>");
    assert(out@ =~= comment_element_markup(
        comment_id,
        author@,
        date@,
        text@,
        match initials {
            Some(i) => Some(i@),
            None => None,
        },
    ));
    string_from_chars(&out)
}

/// The range start, range end and reference run of a comment.
fn comment_markers(comment_id: u64) -> (r: (String, String, String))
    ensures
        r.0@ == range_start_markup(comment_id),
        r.1@ == range_end_markup(comment_id),
        r.2@ == reference_markup(comment_id),
{
    let mut s: Vec<char> = Vec::new();
    push_str_chars(&mut s, "<w:commentRangeStart w:id=\"");
    push_decimal(&mut s, comment_id);
    push_str_chars(&mut s, "\"/>");
    let mut e: Vec<char> = Vec::new();
    push_str_chars(&mut e, "<w:commentRangeEnd w:id=\"");
    push_decimal(&mut e, comment_id);
    push_str_chars(&mut e, "\"/>");
    let mut r: Vec<char> = Vec::new();
    push_str_chars(
        &mut r,
        "<w:r><w:rPr><w:rStyle w:val=\"CommentReference\"/></w:rPr><w:commentReference w:id=\"",
    );
    push_decimal(&mut r, comment_id);
    push_str_chars(&mut r, "\"/></w:r>");
    assert(s@ =~= range_start_markup(comment_id));
    assert(e@ =~= range_end_markup(comment_id));
    assert(r@ =~= reference_markup(comment_id));
    (string_from_chars(&s), string_from_chars(&e), string_from_chars(&r))
}

/// Creates an empty comments part when there is none.
fn ensure_comments_part(graph: &mut PartGraph)
    ensures
        final(graph).xml(comments_part()) == Some(comments_or_skeleton(old(graph))),
        forall|p: Seq<char>| p != comments_part() ==> #[trigger] final(graph).part(p) == old(graph).part(p),
        old(graph).xml(comments_part()) is Some ==> forall|p: Seq<char>| #[trigger] final(graph).part(p)
            == old(graph).part(p),
{
    if graph.xml_bytes("word/comments.xml").is_none() {
        let mut sk: Vec<char> = Vec::new();
        push_str_chars(
            &mut sk,
            "<?xml version=\"1.0\" encoding=\"UTF-8\" standalone=\"yes\"?><w:comments xmlns:w=\"",
        );
        push_str_chars(&mut sk, "http://schemas.openxmlformats.org/wordprocessingml/2006/main");
        push_str_chars(&mut sk, "\"></w:comments>");
        let bytes = chars_utf8(&sk);
        assert(bytes@ =~= comments_skeleton());
        graph.set_xml("word/comments.xml", bytes);
    }
}

/// Inserts `element` before the last `</w:comments>` of the comments part,
/// creating the part first when it is absent.
fn insert_comment_element(graph: &mut PartGraph, element: &Vec<u8>) -> (r: Result<(), DocliError>)
    ensures
        err_pair(r) == insert_outcome(old(graph), element@).0,
        final(graph).xml(comments_part()) == Some(insert_outcome(old(graph), element@).1),
        forall|p: Seq<char>| p != comments_part() ==> #[trigger] final(graph).part(p) == old(graph).part(p),
{
    ensure_comments_part(graph);
    let comments = match graph.xml_bytes("word/comments.xml") {
        Some(c) => c,
        None => {
            assert(false);
            return Ok(());
        },
    };
    if !is_valid_utf8(comments) {
        let m = utf8_error_message(comments);
        return Err(
            DocliError::InvalidDocx {
                message: concat_message("invalid UTF-8 in comments.xml: ", &chars_of(m.as_str())),
            },
        );
    }
    let close = str_bytes("</w:comments>");
    let pos = match rfind_bytes(comments, close.as_slice()) {
        Some(p) => p,
        None => {
            return Err(
                DocliError::InvalidDocx {
                    message: String::from_str("malformed comments.xml: missing </w:comments>"),
                },
            );
        },
    };
    let mut out: Vec<u8> = Vec::new();
    extend_range(&mut out, comments, 0, pos);
    extend_range(&mut out, element.as_slice(), 0, element.len());
    extend_range(&mut out, comments, pos, comments.len());
    assert(element@.subrange(0, element@.len() as int) =~= element@);
    graph.set_xml("word/comments.xml", out);
    Ok(())
}

/// Anchors a new comment to the byte span `[para_byte_offset, para_byte_end)`
/// of the part at `part_path` and adds its element to the comments part.
///
/// The document part is rewritten first; an error found afterwards in the
/// comments part leaves that rewrite in place.
pub fn add_comment(
    graph: &mut PartGraph,
    part_path: &str,
    para_byte_offset: usize,
    para_byte_end: usize,
    comment_id: u64,
    author: &str,
    date: &str,
    text: &str,
) -> (r: Result<(), DocliError>)
    requires
        ({
            match old(graph).xml(part_path@) {
                Some(b) => valid_utf8(b) && para_byte_end <= b.len() ==> {
                    &&& para_byte_offset <= para_byte_end
                    &&& is_char_boundary(b, para_byte_offset as int)
                    &&& is_char_boundary(b, para_byte_end as int)
                },
                None => true,
            }
        }),
    ensures
        ({
            let g = old(graph);
            let element = encode_utf8(comment_element_markup(comment_id, author@, date@, text@, None));
            match g.xml(part_path@) {
                None => err_pair(r) == Some(
                    (ErrorCode::InvalidDocx, "part not found: "@ + part_path@),
                ) && forall|p: Seq<char>| #[trigger] final(graph).part(p) == g.part(p),
                Some(x) => if !valid_utf8(x) {
                    err_pair(r) == Some((ErrorCode::InvalidDocx, "invalid UTF-8: "@ + utf8_error_text(x)))
                        && forall|p: Seq<char>| #[trigger] final(graph).part(p) == g.part(p)
                } else if para_byte_end > x.len() {
                    err_pair(r) == Some(
                        (
                            ErrorCode::InvalidOperation,
                            "para_byte_end ("@ + decimal(para_byte_end as nat) + ") exceeds part length ("@
                                + decimal(x.len()) + ")"@,
                        ),
                    ) && forall|p: Seq<char>| #[trigger] final(graph).part(p) == g.part(p)
                } else {
                    let doc = anchored(x, para_byte_offset as int, para_byte_end as int, comment_id);
                    let c = if part_path@ == comments_part() {
                        doc
                    } else {
                        comments_or_skeleton(g)
                    };
                    let outcome = if !valid_utf8(c) {
                        (
                            Some((ErrorCode::InvalidDocx, "invalid UTF-8 in comments.xml: "@ + utf8_error_text(c))),
                            c,
                        )
                    } else {
                        match with_comment(c, element) {
                            None => (
                                Some((ErrorCode::InvalidDocx, "malformed comments.xml: missing </w:comments>"@)),
                                c,
                            ),
                            Some(n) => (None, n),
                        }
                    };
                    &&& err_pair(r) == outcome.0
                    &&& final(graph).xml(comments_part()) == Some(outcome.1)
                    &&& part_path@ != comments_part() ==> final(graph).xml(part_path@) == Some(doc)
                    &&& forall|p: Seq<char>|
                        p != comments_part() && p != part_path@ ==> #[trigger] final(graph).part(p)
                            == g.part(p)
                },
            }
        }),
{
    let xml = match graph.xml_bytes(part_path) {
        Some(x) => x,
        None => {
            return Err(
                DocliError::InvalidDocx { message: concat_message("part not found: ", &chars_of(part_path)) },
            );
        },
    };
    if !is_valid_utf8(xml) {
        let m = utf8_error_message(xml);
        return Err(DocliError::InvalidDocx { message: concat_message("invalid UTF-8: ", &chars_of(m.as_str())) });
    }
    if para_byte_end > xml.len() {
        let mut msg: Vec<char> = Vec::new();
        push_str_chars(&mut msg, "para_byte_end (");
        push_decimal(&mut msg, para_byte_end as u64);
        push_str_chars(&mut msg, ") exceeds part length (");
        push_decimal(&mut msg, xml.len() as u64);
        push_str_chars(&mut msg, ")");
        assert(msg@ =~= "para_byte_end ("@ + decimal(para_byte_end as nat) + ") exceeds part length ("@
            + decimal(xml@.len()) + ")"@);
        return Err(DocliError::InvalidOperation { message: string_from_chars(&msg) });
    }
    let (range_start, range_end, reference) = comment_markers(comment_id);
    let mut result: Vec<u8> = Vec::new();
    extend_range(&mut result, xml, 0, para_byte_offset);
    let sb = str_bytes(range_start.as_str());
    extend_range(&mut result, sb.as_slice(), 0, sb.len());
    extend_range(&mut result, xml, para_byte_offset, para_byte_end);
    let eb = str_bytes(range_end.as_str());
    extend_range(&mut result, eb.as_slice(), 0, eb.len());
    let rb = str_bytes(reference.as_str());
    extend_range(&mut result, rb.as_slice(), 0, rb.len());
    extend_range(&mut result, xml, para_byte_end, xml.len());
    assert(sb@.subrange(0, sb@.len() as int) =~= sb@);
    assert(eb@.subrange(0, eb@.len() as int) =~= eb@);
    assert(rb@.subrange(0, rb@.len() as int) =~= rb@);
    assert(result@ =~= anchored(xml@, para_byte_offset as int, para_byte_end as int, comment_id));
    graph.set_xml(part_path, result);
    let element = comment_element(comment_id, author, date, text, None);
    let eb2 = str_bytes(element.as_str());
    insert_comment_element(graph, &eb2)
}

/// Adds a reply to comment `parent_id`: a new comment whose text is
/// `@reply:{parent_id} {text}`.
pub fn add_comment_reply(
    graph: &mut PartGraph,
    parent_id: u64,
    comment_id: u64,
    author: &str,
    date: &str,
    text: &str,
) -> (r: Result<(), DocliError>)
    ensures
        ({
            let g = old(graph);
            let c = comments_or_skeleton(g);
            let parent_marker = encode_utf8("w:id=\""@ + decimal(parent_id as nat) + "\""@);
            let reply = "@reply:"@ + decimal(parent_id as nat) + " "@ + text@;
            let element = encode_utf8(comment_element_markup(comment_id, author@, date@, reply, None));
            &&& forall|p: Seq<char>| p != comments_part() ==> #[trigger] final(graph).part(p) == g.part(p)
            &&& if !valid_utf8(c) {
                &&& err_pair(r) == Some((ErrorCode::InvalidDocx, "invalid UTF-8 in comments.xml: "@ + utf8_error_text(c)))
                &&& final(graph).xml(comments_part()) == Some(c)
            } else if first_match(c, parent_marker) is None {
                &&& err_pair(r) == Some((ErrorCode::RefNotFound, "comment "@ + decimal(parent_id as nat)))
                &&& final(graph).xml(comments_part()) == Some(c)
            } else {
                &&& err_pair(r) == insert_outcome(g, element).0
                &&& final(graph).xml(comments_part()) == Some(insert_outcome(g, element).1)
            }
        }),
{
    ensure_comments_part(graph);
    let comments = match graph.xml_bytes("word/comments.xml") {
        Some(c) => c,
        None => {
            assert(false);
            return Ok(());
        },
    };
    if !is_valid_utf8(comments) {
        let m = utf8_error_message(comments);
        return Err(
            DocliError::InvalidDocx {
                message: concat_message("invalid UTF-8 in comments.xml: ", &chars_of(m.as_str())),
            },
        );
    }
    let mut marker: Vec<char> = Vec::new();
    push_str_chars(&mut marker, "w:id=\"");
    push_decimal(&mut marker, parent_id);
    push_str_chars(&mut marker, "\"");
    assert(marker@ =~= "w:id=\""@ + decimal(parent_id as nat) + "\""@);
    let mb = chars_utf8(&marker);
    if find_bytes(comments, mb.as_slice()).is_none() {
        let mut msg: Vec<char> = Vec::new();
        push_str_chars(&mut msg, "comment ");
        push_decimal(&mut msg, parent_id);
        assert(msg@ =~= "comment "@ + decimal(parent_id as nat));
        return Err(DocliError::RefNotFound { reference: string_from_chars(&msg) });
    }
    let mut reply: Vec<char> = Vec::new();
    push_str_chars(&mut reply, "@reply:");
    push_decimal(&mut reply, parent_id);
    push_str_chars(&mut reply, " ");
    push_str_chars(&mut reply, text);
    assert(reply@ =~= "@reply:"@ + decimal(parent_id as nat) + " "@ + text@);
    let reply_text = string_from_chars(&reply);
    let element = comment_element(comment_id, author, date, reply_text.as_str(), None);
    let eb = str_bytes(element.as_str());
    insert_comment_element(graph, &eb)
}

/// Marks comment `comment_id` resolved by adding `w:done="1"` to its element.
pub fn resolve_comment(graph: &mut PartGraph, comment_id: u64) -> (r: Result<(), DocliError>)
    ensures
        forall|p: Seq<char>| p != comments_part() ==> #[trigger] final(graph).part(p) == old(graph).part(p),
        ({
            let g = old(graph);
            let needle = encode_utf8("<w:comment w:id=\""@ + decimal(comment_id as nat) + "\""@);
            match g.xml(comments_part()) {
                None => err_pair(r) == Some((ErrorCode::InvalidDocx, "comments.xml not found"@))
                    && final(graph).part(comments_part()) == g.part(comments_part()),
                Some(c) => if !valid_utf8(c) {
                    err_pair(r) == Some((ErrorCode::InvalidDocx, "invalid UTF-8 in comments.xml: "@ + utf8_error_text(c)))
                        && final(graph).part(comments_part()) == g.part(comments_part())
                } else {
                    match first_match(c, needle) {
                        None => err_pair(r) == Some((ErrorCode::RefNotFound, "comment "@ + decimal(comment_id as nat)))
                            && final(graph).part(comments_part()) == g.part(comments_part()),
                        Some(pos) => r is Ok && final(graph).xml(comments_part()) == Some(
                            c.subrange(0, pos + needle.len()) + encode_utf8(" w:done=\"1\""@) + c.subrange(
                                pos + needle.len(),
                                c.len() as int,
                            ),
                        ),
                    }
                },
            }
        }),
{
    let comments = match graph.xml_bytes("word/comments.xml") {
        Some(c) => c,
        None => {
            return Err(DocliError::InvalidDocx { message: String::from_str("comments.xml not found") });
        },
    };
    if !is_valid_utf8(comments) {
        let m = utf8_error_message(comments);
        return Err(
            DocliError::InvalidDocx {
                message: concat_message("invalid UTF-8 in comments.xml: ", &chars_of(m.as_str())),
            },
        );
    }
    let mut needle: Vec<char> = Vec::new();
    push_str_chars(&mut needle, "<w:comment w:id=\"");
    push_decimal(&mut needle, comment_id);
    push_str_chars(&mut needle, "\"");
    assert(needle@ =~= "<w:comment w:id=\""@ + decimal(comment_id as nat) + "\""@);
    let nb = chars_utf8(&needle);
    let nbs = nb.as_slice();
    let pos = match find_bytes(comments, nbs) {
        Some(p) => p,
        None => {
            let mut msg: Vec<char> = Vec::new();
            push_str_chars(&mut msg, "comment ");
            push_decimal(&mut msg, comment_id);
            assert(msg@ =~= "comment "@ + decimal(comment_id as nat));
            return Err(DocliError::RefNotFound { reference: string_from_chars(&msg) });
        },
    };
    let done = str_bytes(" w:done=\"1\"");
    let clen = comments.len();
    let nlen = nbs.len();
    assert(pos + nlen <= clen);
    let mut out: Vec<u8> = Vec::new();
    extend_range(&mut out, comments, 0, pos + nbs.len());
    extend_range(&mut out, done.as_slice(), 0, done.len());
    extend_range(&mut out, comments, pos + nbs.len(), comments.len());
    assert(done@.subrange(0, done@.len() as int) =~= done@);
    graph.set_xml("word/comments.xml", out);
    Ok(())
}

/// Anchoring a comment to the span `[start, end)` of a part encloses the
/// span between its range markers: the part keeps its bytes before the span,
/// then comes `<w:commentRangeStart w:id="ID"/>`, then the span unchanged,
/// then `<w:commentRangeEnd w:id="ID"/>`, then the run
/// `<w:r><w:rPr><w:rStyle w:val="CommentReference"/></w:rPr><w:commentReference w:id="ID"/></w:r>`,
/// then the bytes after the span; ID is the comment id in decimal.
pub proof fn law_comment_range_encloses_span(x: Seq<u8>, start: int, end: int, id: u64)
    requires
        0 <= start <= end <= x.len(),
    ensures
        ({
            let d = decimal(id as nat);
            let open = encode_utf8("<w:commentRangeStart w:id=\""@ + d + "\"/>"@);
            let close = encode_utf8("<w:commentRangeEnd w:id=\""@ + d + "\"/>"@);
            let reference = encode_utf8(
                "<w:r><w:rPr><w:rStyle w:val=\"CommentReference\"/></w:rPr><w:commentReference w:id=\""@ + d
                    + "\"/></w:r>"@,
            );
            let a = anchored(x, start, end, id);
            let s1 = start + open.len();
            let e1 = end + open.len();
            let e2 = e1 + close.len();
            let e3 = e2 + reference.len();
            &&& a.len() == x.len() + open.len() + close.len() + reference.len()
            &&& a.subrange(0, start) == x.subrange(0, start)
            &&& a.subrange(start, s1) == open
            &&& a.subrange(s1, e1) == x.subrange(start, end)
            &&& a.subrange(e1, e2) == close
            &&& a.subrange(e2, e3) == reference
            &&& a.subrange(e3, a.len() as int) == x.subrange(end, x.len() as int)
        }),
{
    let d = decimal(id as nat);
    let open = encode_utf8("<w:commentRangeStart w:id=\""@ + d + "\"/>"@);
    let close = encode_utf8("<w:commentRangeEnd w:id=\""@ + d + "\"/>"@);
    let reference = encode_utf8(
        "<w:r><w:rPr><w:rStyle w:val=\"CommentReference\"/></w:rPr><w:commentReference w:id=\""@ + d
            + "\"/></w:r>"@,
    );
    let p0 = x.subrange(0, start);
    let p1 = x.subrange(start, end);
    let p2 = x.subrange(end, x.len() as int);
    let a = anchored(x, start, end, id);
    assert(a == p0 + open + p1 + close + reference + p2);
    let s1 = start + open.len();
    let e1 = end + open.len();
    let e2 = e1 + close.len();
    let e3 = e2 + reference.len();
    assert(a.subrange(0, start) =~= p0);
    assert(a.subrange(start, s1) =~= open);
    assert(a.subrange(s1, e1) =~= p1);
    assert(a.subrange(e1, e2) =~= close);
    assert(a.subrange(e2, e3) =~= reference);
    assert(a.subrange(e3, a.len() as int) =~= p2);
}

} // verus!
