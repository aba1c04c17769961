//! The structural index of a document part: body paragraphs, tables, images,
//! headings, bookmarks, comment anchors and tracked changes.

use vstd::prelude::*;
use vstd::utf8::{decode_utf8, valid_utf8};

use crate::assoc::{assoc_insert, lemma_assoc_insert_absent, lemma_assoc_insert_at};
use crate::bytes::{str_eq, utf8_error_message, utf8_error_text, utf8_str};
use crate::error::{DocliError, ErrorCode};
use crate::text::{chars_of, string_from_chars};
use crate::units::{parse_unsigned, parse_unsigned_chars};
use crate::xml::{
    attr, child_count, child_count_in, find_attr, first_tag, first_tag_in, has_ancestor_tag, has_tag,
    inside_tag, node_has_tag, node_subtree_end, nodes_view, opt_string_view, parent_of, parse_xml,
    roxml_document, subtree_end, tag_text, tag_text_in, DocView, NodeView, XmlNode,
};

verus! {

/// A body paragraph.
#[derive(Debug)]
pub struct ParagraphEntry {
    pub index: usize,
    pub style: Option<String>,
    pub text: String,
    pub para_id: Option<String>,
    pub byte_offset: usize,
    pub byte_end: usize,
}

/// A table, with the index of the paragraph that precedes it.
#[derive(Debug)]
pub struct TableEntry {
    pub index: usize,
    pub paragraph_index: Option<usize>,
    pub rows: usize,
    pub cols: usize,
    pub byte_offset: usize,
    pub byte_end: usize,
}

/// An embedded picture, with the paragraph that precedes it.
#[derive(Debug)]
pub struct ImageEntry {
    pub index: usize,
    pub paragraph_index: usize,
    pub relationship_id: String,
    pub target: Option<String>,
    pub byte_offset: usize,
    pub byte_end: usize,
}

/// A paragraph whose style is `Heading<level>`.
#[derive(Debug)]
pub struct HeadingEntry {
    pub paragraph_index: usize,
    pub level: u8,
    pub text: String,
}

#[derive(Debug)]
pub struct CommentSummary {
    pub count: usize,
}

#[derive(Debug)]
pub struct TrackedChangeSummary {
    pub count: usize,
    pub insertions: usize,
    pub deletions: usize,
    pub authors: Vec<String>,
}

/// The index of one document part. `bookmarks` maps each bookmark name to the
/// paragraph that holds its last start marker.
#[derive(Debug)]
pub struct DocumentIndex {
    pub part_path: String,
    pub paragraphs: Vec<ParagraphEntry>,
    pub tables: Vec<TableEntry>,
    pub images: Vec<ImageEntry>,
    pub headings: Vec<HeadingEntry>,
    pub bookmarks: Vec<(String, usize)>,
    pub comments: CommentSummary,
    pub tracked_changes: TrackedChangeSummary,
}

pub struct ParaView {
    pub index: usize,
    pub style: Option<Seq<char>>,
    pub text: Seq<char>,
    pub para_id: Option<Seq<char>>,
    pub byte_offset: usize,
    pub byte_end: usize,
}

pub struct TableView {
    pub index: usize,
    pub paragraph_index: Option<usize>,
    pub rows: usize,
    pub cols: usize,
    pub byte_offset: usize,
    pub byte_end: usize,
}

pub struct ImageView {
    pub index: usize,
    pub paragraph_index: usize,
    pub relationship_id: Seq<char>,
    pub target: Option<Seq<char>>,
    pub byte_offset: usize,
    pub byte_end: usize,
}

pub struct HeadingView {
    pub paragraph_index: usize,
    pub level: u8,
    pub text: Seq<char>,
}

impl View for ParagraphEntry {
    type V = ParaView;

    open spec fn view(&self) -> ParaView {
        ParaView {
            index: self.index,
            style: opt_string_view(self.style),
            text: self.text@,
            para_id: opt_string_view(self.para_id),
            byte_offset: self.byte_offset,
            byte_end: self.byte_end,
        }
    }
}

impl View for TableEntry {
    type V = TableView;

    open spec fn view(&self) -> TableView {
        TableView {
            index: self.index,
            paragraph_index: self.paragraph_index,
            rows: self.rows,
            cols: self.cols,
            byte_offset: self.byte_offset,
            byte_end: self.byte_end,
        }
    }
}

impl View for ImageEntry {
    type V = ImageView;

    open spec fn view(&self) -> ImageView {
        ImageView {
            index: self.index,
            paragraph_index: self.paragraph_index,
            relationship_id: self.relationship_id@,
            target: opt_string_view(self.target),
            byte_offset: self.byte_offset,
            byte_end: self.byte_end,
        }
    }
}

impl View for HeadingEntry {
    type V = HeadingView;

    open spec fn view(&self) -> HeadingView {
        HeadingView { paragraph_index: self.paragraph_index, level: self.level, text: self.text@ }
    }
}

/// A relationship list: (id, target) pairs in document order.
pub type RelsView = Seq<(Seq<char>, Seq<char>)>;

/// The target of the last relationship with this id.
pub open spec fn rel_lookup(rels: RelsView, id: Seq<char>) -> Option<Seq<char>>
    decreases rels.len(),
{
    if rels.len() == 0 {
        None
    } else if rels.last().0 == id {
        Some(rels.last().1)
    } else {
        rel_lookup(rels.drop_last(), id)
    }
}

/// The relationships declared among nodes `0 .. n`.
pub open spec fn rels_upto(nodes: Seq<NodeView>, n: int) -> RelsView
    decreases n,
{
    if n <= 0 {
        Seq::empty()
    } else {
        let prev = rels_upto(nodes, n - 1);
        let k = n - 1;
        if has_tag(nodes[k], "Relationship"@) && attr(nodes[k], "Id"@) is Some && attr(nodes[k], "Target"@)
            is Some {
            prev.push((attr(nodes[k], "Id"@).unwrap(), attr(nodes[k], "Target"@).unwrap()))
        } else {
            prev
        }
    }
}

/// What reading an optional relationships part gives.
pub open spec fn rels_outcome(rels_xml: Option<Seq<u8>>) -> Result<RelsView, Seq<char>> {
    match rels_xml {
        None => Ok(Seq::empty()),
        Some(b) => if !valid_utf8(b) {
            Err(utf8_error_text(b))
        } else {
            match roxml_document(decode_utf8(b)) {
                Err(e) => Err(e),
                Ok(d) => Ok(rels_upto(d.nodes, d.nodes.len() as int)),
            }
        },
    }
}

pub open spec fn is_body_paragraph(nodes: Seq<NodeView>, k: int) -> bool {
    has_tag(nodes[k], "p"@) && !has_ancestor_tag(nodes, k, "tbl"@)
}

pub open spec fn paragraph_style_of(nodes: Seq<NodeView>, k: int) -> Option<Seq<char>> {
    match first_tag_in(nodes, k + 1, subtree_end(nodes, k), "pStyle"@) {
        Some(s) => attr(nodes[s], "val"@),
        None => None,
    }
}

pub open spec fn paragraph_entry(nodes: Seq<NodeView>, k: int, idx: usize) -> ParaView {
    ParaView {
        index: idx,
        style: paragraph_style_of(nodes, k),
        text: tag_text_in(nodes, k + 1, subtree_end(nodes, k), "t"@),
        para_id: attr(nodes[k], "paraId"@),
        byte_offset: nodes[k].start,
        byte_end: nodes[k].end,
    }
}

/// The level `n` of a paragraph styled `Heading<n>`.
pub open spec fn heading_level_of(style: Option<Seq<char>>) -> Option<u8> {
    match style {
        Some(s) => if s.len() >= 7 && s.subrange(0, 7) == seq!['H', 'e', 'a', 'd', 'i', 'n', 'g'] {
            match parse_unsigned(s.subrange(7, s.len() as int), 255) {
                Some(v) => Some(v as u8),
                None => None,
            }
        } else {
            None
        },
        None => None,
    }
}

/// The body paragraphs among nodes `0 .. n`.
pub open spec fn paragraphs_upto(nodes: Seq<NodeView>, n: int) -> Seq<ParaView>
    decreases n,
{
    if n <= 0 {
        Seq::empty()
    } else {
        let prev = paragraphs_upto(nodes, n - 1);
        if is_body_paragraph(nodes, n - 1) {
            prev.push(paragraph_entry(nodes, n - 1, prev.len() as usize))
        } else {
            prev
        }
    }
}

/// The index of the last body paragraph among nodes `0 .. n`.
pub open spec fn last_paragraph(nodes: Seq<NodeView>, n: int) -> Option<usize> {
    let c = paragraphs_upto(nodes, n).len();
    if c > 0 {
        Some((c - 1) as usize)
    } else {
        None
    }
}

/// The headings among nodes `0 .. n`.
pub open spec fn headings_upto(nodes: Seq<NodeView>, n: int) -> Seq<HeadingView>
    decreases n,
{
    if n <= 0 {
        Seq::empty()
    } else {
        let prev = headings_upto(nodes, n - 1);
        let k = n - 1;
        if is_body_paragraph(nodes, k) && heading_level_of(paragraph_style_of(nodes, k)) is Some {
            prev.push(
                HeadingView {
                    paragraph_index: paragraphs_upto(nodes, k).len() as usize,
                    level: heading_level_of(paragraph_style_of(nodes, k)).unwrap(),
                    text: tag_text_in(nodes, k + 1, subtree_end(nodes, k), "t"@),
                },
            )
        } else {
            prev
        }
    }
}

/// The largest number of cells in a row, over the rows of table `i` among nodes `from .. to`.
pub open spec fn max_cols_in(nodes: Seq<NodeView>, i: int, from: int, to: int) -> nat
    decreases to - from,
{
    if to <= from {
        0
    } else {
        let prev = max_cols_in(nodes, i, from, to - 1);
        let k = to - 1;
        if parent_of(nodes, k) == Some(i) && has_tag(nodes[k], "tr"@) {
            let c = child_count_in(nodes, k, k + 1, subtree_end(nodes, k), "tc"@);
            if c > prev {
                c
            } else {
                prev
            }
        } else {
            prev
        }
    }
}

/// The tables among nodes `0 .. n`.
pub open spec fn tables_upto(nodes: Seq<NodeView>, n: int) -> Seq<TableView>
    decreases n,
{
    if n <= 0 {
        Seq::empty()
    } else {
        let prev = tables_upto(nodes, n - 1);
        let k = n - 1;
        if has_tag(nodes[k], "tbl"@) {
            prev.push(
                TableView {
                    index: prev.len() as usize,
                    paragraph_index: last_paragraph(nodes, k),
                    rows: child_count_in(nodes, k, k + 1, subtree_end(nodes, k), "tr"@) as usize,
                    cols: max_cols_in(nodes, k, k + 1, subtree_end(nodes, k)) as usize,
                    byte_offset: nodes[k].start,
                    byte_end: nodes[k].end,
                },
            )
        } else {
            prev
        }
    }
}

/// The picture reference inside drawing `k`: its relationship id and target.
pub open spec fn image_target_of(nodes: Seq<NodeView>, k: int, rels: RelsView) -> Option<(Seq<char>, Option<Seq<char>>)> {
    match first_tag_in(nodes, k + 1, subtree_end(nodes, k), "blip"@) {
        Some(b) => match attr(nodes[b], "embed"@) {
            Some(rid) => Some((rid, rel_lookup(rels, rid))),
            None => None,
        },
        None => None,
    }
}

/// The images among nodes `0 .. n`.
pub open spec fn images_upto(nodes: Seq<NodeView>, rels: RelsView, n: int) -> Seq<ImageView>
    decreases n,
{
    if n <= 0 {
        Seq::empty()
    } else {
        let prev = images_upto(nodes, rels, n - 1);
        let k = n - 1;
        if has_tag(nodes[k], "drawing"@) && last_paragraph(nodes, k) is Some && image_target_of(nodes, k, rels) is Some {
            prev.push(
                ImageView {
                    index: prev.len() as usize,
                    paragraph_index: last_paragraph(nodes, k).unwrap(),
                    relationship_id: image_target_of(nodes, k, rels).unwrap().0,
                    target: image_target_of(nodes, k, rels).unwrap().1,
                    byte_offset: nodes[k].start,
                    byte_end: nodes[k].end,
                },
            )
        } else {
            prev
        }
    }
}

/// Bookmark starts among nodes `from .. to`, bound to paragraph `idx`.
pub open spec fn bookmarks_in(
    nodes: Seq<NodeView>,
    from: int,
    to: int,
    idx: usize,
    m: Seq<(Seq<char>, usize)>,
) -> Seq<(Seq<char>, usize)>
    decreases to - from,
{
    if to <= from {
        m
    } else {
        let prev = bookmarks_in(nodes, from, to - 1, idx, m);
        let k = to - 1;
        if has_tag(nodes[k], "bookmarkStart"@) && attr(nodes[k], "name"@) is Some {
            assoc_insert(prev, attr(nodes[k], "name"@).unwrap(), idx)
        } else {
            prev
        }
    }
}

/// The bookmark map after nodes `0 .. n`.
pub open spec fn bookmarks_upto(nodes: Seq<NodeView>, n: int) -> Seq<(Seq<char>, usize)>
    decreases n,
{
    if n <= 0 {
        Seq::empty()
    } else {
        let prev = bookmarks_upto(nodes, n - 1);
        let k = n - 1;
        if is_body_paragraph(nodes, k) {
            bookmarks_in(nodes, k + 1, subtree_end(nodes, k), paragraphs_upto(nodes, k).len() as usize, prev)
        } else {
            prev
        }
    }
}

/// The number of elements named `name` among nodes `0 .. n`.
pub open spec fn tag_count_upto(nodes: Seq<NodeView>, n: int, name: Seq<char>) -> nat
    decreases n,
{
    if n <= 0 {
        0
    } else {
        tag_count_upto(nodes, n - 1, name) + if has_tag(nodes[n - 1], name) {
            1nat
        } else {
            0nat
        }
    }
}

pub open spec fn is_revision(n: NodeView) -> bool {
    has_tag(n, "ins"@) || has_tag(n, "del"@)
}

/// `v` with `s` appended unless already present.
pub open spec fn push_unique(v: Seq<Seq<char>>, s: Seq<char>) -> Seq<Seq<char>> {
    if v.contains(s) {
        v
    } else {
        v.push(s)
    }
}

/// The distinct authors of revisions among nodes `0 .. n`, in first-seen order.
pub open spec fn authors_upto(nodes: Seq<NodeView>, n: int) -> Seq<Seq<char>>
    decreases n,
{
    if n <= 0 {
        Seq::empty()
    } else {
        let prev = authors_upto(nodes, n - 1);
        let k = n - 1;
        if is_revision(nodes[k]) && attr(nodes[k], "author"@) is Some {
            push_unique(prev, attr(nodes[k], "author"@).unwrap())
        } else {
            prev
        }
    }
}

/// The index of a parsed document, as plain values.
pub struct IndexView {
    pub part_path: Seq<char>,
    pub paragraphs: Seq<ParaView>,
    pub tables: Seq<TableView>,
    pub images: Seq<ImageView>,
    pub headings: Seq<HeadingView>,
    pub bookmarks: Seq<(Seq<char>, usize)>,
    pub comment_count: usize,
    pub change_count: usize,
    pub insertions: usize,
    pub deletions: usize,
    pub authors: Seq<Seq<char>>,
}

impl View for DocumentIndex {
    type V = IndexView;

    open spec fn view(&self) -> IndexView {
        IndexView {
            part_path: self.part_path@,
            paragraphs: self.paragraphs@.map_values(|p: ParagraphEntry| p@),
            tables: self.tables@.map_values(|t: TableEntry| t@),
            images: self.images@.map_values(|i: ImageEntry| i@),
            headings: self.headings@.map_values(|h: HeadingEntry| h@),
            bookmarks: self.bookmarks@.map_values(|b: (String, usize)| (b.0@, b.1)),
            comment_count: self.comments.count,
            change_count: self.tracked_changes.count,
            insertions: self.tracked_changes.insertions,
            deletions: self.tracked_changes.deletions,
            authors: self.tracked_changes.authors@.map_values(|a: String| a@),
        }
    }
}

/// The index of the document whose nodes are `nodes`.
pub open spec fn index_of(nodes: Seq<NodeView>, rels: RelsView) -> IndexView {
    let n = nodes.len() as int;
    IndexView {
        part_path: "word/document.xml"@,
        paragraphs: paragraphs_upto(nodes, n),
        tables: tables_upto(nodes, n),
        images: images_upto(nodes, rels, n),
        headings: headings_upto(nodes, n),
        bookmarks: bookmarks_upto(nodes, n),
        comment_count: tag_count_upto(nodes, n, "commentRangeStart"@) as usize,
        change_count: (tag_count_upto(nodes, n, "ins"@) + tag_count_upto(nodes, n, "del"@)) as usize,
        insertions: tag_count_upto(nodes, n, "ins"@) as usize,
        deletions: tag_count_upto(nodes, n, "del"@) as usize,
        authors: authors_upto(nodes, n),
    }
}

/// What indexing `xml` with the optional relationships part `rels_xml` gives.
pub open spec fn index_outcome(xml: Seq<u8>, rels_xml: Option<Seq<u8>>) -> Result<IndexView, Seq<char>> {
    if !valid_utf8(xml) {
        Err(utf8_error_text(xml))
    } else {
        match rels_outcome(rels_xml) {
            Err(e) => Err(e),
            Ok(rels) => match roxml_document(decode_utf8(xml)) {
                Err(e) => Err(e),
                Ok(d) => Ok(index_of(d.nodes, rels)),
            },
        }
    }
}


pub open spec fn assoc_view(v: Seq<(String, usize)>) -> Seq<(Seq<char>, usize)> {
    v.map_values(|b: (String, usize)| (b.0@, b.1))
}

/// Binds `key` to `value`, replacing an earlier binding.
fn insert_bookmark(m: &mut Vec<(String, usize)>, key: String, value: usize)
    ensures
        assoc_view(final(m)@) == assoc_insert(assoc_view(old(m)@), key@, value),
{
    let ghost old_view = assoc_view(m@);
    let mut i: usize = 0;
    while i < m.len()
        invariant
            0 <= i <= m.len(),
            old_view == assoc_view(m@),
            old_view == assoc_view(old(m)@),
            forall|j: int| 0 <= j < i ==> (#[trigger] old_view[j]).0 != key@,
        decreases m.len() - i,
    {
        if str_eq(m[i].0.as_str(), key.as_str()) {
            assert(old_view[i as int].0 == key@);
            proof {
                lemma_assoc_insert_at(old_view, key@, value, i as int);
            }
            m.set(i, (key, value));
            assert(assoc_view(m@) =~= old_view.update(i as int, (key@, value)));
            return;
        }
        i = i + 1;
    }
    proof {
        lemma_assoc_insert_absent(old_view, key@, value);
    }
    m.push((key, value));
    assert(assoc_view(m@) =~= old_view.push((key@, value)));
}

pub open spec fn strings_view(v: Seq<String>) -> Seq<Seq<char>> {
    v.map_values(|a: String| a@)
}

/// Appends `author` unless already present.
fn push_author(authors: &mut Vec<String>, author: &String)
    ensures
        strings_view(final(authors)@) == push_unique(strings_view(old(authors)@), author@),
{
    let ghost old_view = strings_view(authors@);
    let mut i: usize = 0;
    while i < authors.len()
        invariant
            0 <= i <= authors.len(),
            old_view == strings_view(authors@),
            forall|j: int| 0 <= j < i ==> (#[trigger] old_view[j]) != author@,
        decreases authors.len() - i,
    {
        if str_eq(authors[i].as_str(), author.as_str()) {
            assert(old_view[i as int] == author@);
            assert(old_view.contains(author@));
            return;
        }
        i = i + 1;
    }
    assert(!old_view.contains(author@));
    authors.push(author.clone());
    assert(strings_view(authors@) =~= old_view.push(author@));
}

pub open spec fn rels_view(v: Seq<(String, String)>) -> RelsView {
    v.map_values(|r: (String, String)| (r.0@, r.1@))
}

/// The target of the last relationship with id `id`.
pub(crate) fn rel_get(rels: &Vec<(String, String)>, id: &String) -> (r: Option<String>)
    ensures
        opt_string_view(r) == rel_lookup(rels_view(rels@), id@),
{
    let ghost rv = rels_view(rels@);
    let mut i: usize = rels.len();
    assert(rv.subrange(0, i as int) =~= rv);
    while i > 0
        invariant
            i <= rels.len(),
            rv == rels_view(rels@),
            rel_lookup(rv, id@) == rel_lookup(rv.subrange(0, i as int), id@),
        decreases i,
    {
        let ghost pre = rv.subrange(0, i as int);
        assert(pre.drop_last() =~= rv.subrange(0, i - 1));
        if str_eq(rels[i - 1].0.as_str(), id.as_str()) {
            return Some(rels[i - 1].1.clone());
        }
        i = i - 1;
    }
    None
}

/// Reads the `(Id, Target)` pairs of the `Relationship` elements of a
/// relationships part.
pub(crate) fn parse_relationships(rels_xml: Option<&[u8]>) -> (r: Result<Vec<(String, String)>, DocliError>)
    ensures
        match rels_outcome(
            match rels_xml {
                Some(b) => Some(b@),
                None => None,
            },
        ) {
            Ok(v) => r matches Ok(x) && rels_view(x@) == v,
            Err(e) => r matches Err(x) && x.view_pair() == (ErrorCode::InvalidDocx, e),
        },
{
    let bytes = match rels_xml {
        None => {
            let v: Vec<(String, String)> = Vec::new();
            assert(rels_view(v@) =~= Seq::empty());
            return Ok(v);
        },
        Some(b) => b,
    };
    let text = match utf8_str(bytes) {
        Some(t) => t,
        None => {
            return Err(DocliError::InvalidDocx { message: utf8_error_message(bytes) });
        },
    };
    let doc = match parse_xml(text) {
        Ok(d) => d,
        Err(e) => {
            return Err(DocliError::InvalidDocx { message: e });
        },
    };
    let ghost nv = nodes_view(doc.nodes@);
    assert(roxml_document(decode_utf8(bytes@)) == Ok::<DocView, Seq<char>>(doc@));
    assert(doc@.nodes == nv);
    let mut out: Vec<(String, String)> = Vec::new();
    let mut k: usize = 0;
    assert(rels_view(out@) =~= rels_upto(nv, 0));
    while k < doc.nodes.len()
        invariant
            0 <= k <= doc.nodes.len(),
            nv == nodes_view(doc.nodes@),
            rels_view(out@) == rels_upto(nv, k as int),
        decreases doc.nodes.len() - k,
    {
        let n = &doc.nodes[k];
        if node_has_tag(n, "Relationship") {
            let id = find_attr(&n.attrs, "Id");
            let target = find_attr(&n.attrs, "Target");
            match (id, target) {
                (Some(i), Some(t)) => {
                    out.push((i.clone(), t.clone()));
                },
                _ => {},
            }
        }
        k = k + 1;
        assert(rels_view(out@) =~= rels_upto(nv, k as int));
    }
    Ok(out)
}


/// The style id of paragraph `k`: the `val` of its first `pStyle`.
fn paragraph_style(nodes: &Vec<XmlNode>, k: usize, end: usize) -> (r: Option<String>)
    requires
        k < end <= nodes.len(),
        end == subtree_end(nodes_view(nodes@), k as int),
    ensures
        opt_string_view(r) == paragraph_style_of(nodes_view(nodes@), k as int),
{
    match first_tag(nodes, k + 1, end, "pStyle") {
        Some(s) => match find_attr(&nodes[s].attrs, "val") {
            Some(v) => Some(v.clone()),
            None => None,
        },
        None => None,
    }
}

/// The level `n` of a style `Heading<n>`.
fn heading_level(style: &Option<String>) -> (r: Option<u8>)
    ensures
        r == heading_level_of(opt_string_view(*style)),
{
    match style {
        None => None,
        Some(st) => {
            let cs = chars_of(st.as_str());
            if cs.len() >= 7 && cs[0] == 'H' && cs[1] == 'e' && cs[2] == 'a' && cs[3] == 'd' && cs[4]
                == 'i' && cs[5] == 'n' && cs[6] == 'g' {
                assert(cs@.subrange(0, 7) =~= seq!['H', 'e', 'a', 'd', 'i', 'n', 'g']);
                match parse_unsigned_chars(&cs, 7, cs.len(), 255) {
                    Some(v) => Some(v as u8),
                    None => None,
                }
            } else {
                if cs.len() >= 7 {
                    assert(cs@.subrange(0, 7)[0] == cs@[0]);
                    assert(cs@.subrange(0, 7)[1] == cs@[1]);
                    assert(cs@.subrange(0, 7)[2] == cs@[2]);
                    assert(cs@.subrange(0, 7)[3] == cs@[3]);
                    assert(cs@.subrange(0, 7)[4] == cs@[4]);
                    assert(cs@.subrange(0, 7)[5] == cs@[5]);
                    assert(cs@.subrange(0, 7)[6] == cs@[6]);
                }
                None
            }
        },
    }
}

/// The entry of body paragraph `k`, numbered `idx`.
fn build_paragraph_entry(nodes: &Vec<XmlNode>, k: usize, end: usize, idx: usize) -> (r: ParagraphEntry)
    requires
        k < end <= nodes.len(),
        end == subtree_end(nodes_view(nodes@), k as int),
    ensures
        r@ == paragraph_entry(nodes_view(nodes@), k as int, idx),
{
    let text = tag_text(nodes, k + 1, end, "t");
    let para_id = match find_attr(&nodes[k].attrs, "paraId") {
        Some(v) => Some(v.clone()),
        None => None,
    };
    ParagraphEntry {
        index: idx,
        style: paragraph_style(nodes, k, end),
        text: string_from_chars(&text),
        para_id,
        byte_offset: nodes[k].start,
        byte_end: nodes[k].end,
    }
}

/// The largest number of cells over the rows of table `i` among nodes `from .. to`.
fn max_cols(nodes: &Vec<XmlNode>, i: usize, from: usize, to: usize) -> (r: usize)
    requires
        from <= to <= nodes.len(),
    ensures
        r == max_cols_in(nodes_view(nodes@), i as int, from as int, to as int),
{
    let mut best: usize = 0;
    let mut k = from;
    while k < to
        invariant
            from <= k <= to <= nodes.len(),
            best == max_cols_in(nodes_view(nodes@), i as int, from as int, k as int),
        decreases to - k,
    {
        let is_child = match nodes[k].parent {
            Some(p) => p == i && p < k,
            None => false,
        };
        if is_child && node_has_tag(&nodes[k], "tr") {
            let e = node_subtree_end(nodes, k);
            let c = child_count(nodes, k, k + 1, e, "tc");
            if c > best {
                best = c;
            }
        }
        k = k + 1;
    }
    best
}

/// The relationship id and target of the picture in drawing `k`.
fn image_target(nodes: &Vec<XmlNode>, k: usize, end: usize, rels: &Vec<(String, String)>) -> (r: Option<
    (String, Option<String>),
>)
    requires
        k < end <= nodes.len(),
        end == subtree_end(nodes_view(nodes@), k as int),
    ensures
        match image_target_of(nodes_view(nodes@), k as int, rels_view(rels@)) {
            Some((rid, t)) => r matches Some(x) && x.0@ == rid && opt_string_view(x.1) == t,
            None => r is None,
        },
{
    let b = match first_tag(nodes, k + 1, end, "blip") {
        Some(b) => b,
        None => {
            return None;
        },
    };
    let rid = match find_attr(&nodes[b].attrs, "embed") {
        Some(v) => v.clone(),
        None => {
            return None;
        },
    };
    let target = rel_get(rels, &rid);
    Some((rid, target))
}

/// Binds the names of the bookmark starts among nodes `from .. to` to paragraph `idx`.
fn collect_bookmarks(nodes: &Vec<XmlNode>, from: usize, to: usize, idx: usize, m: &mut Vec<(String, usize)>)
    requires
        from <= to <= nodes.len(),
    ensures
        assoc_view(final(m)@) == bookmarks_in(nodes_view(nodes@), from as int, to as int, idx, assoc_view(old(m)@)),
{
    let ghost start = assoc_view(m@);
    let mut k = from;
    while k < to
        invariant
            from <= k <= to <= nodes.len(),
            start == assoc_view(old(m)@),
            assoc_view(m@) == bookmarks_in(nodes_view(nodes@), from as int, k as int, idx, start),
        decreases to - k,
    {
        if node_has_tag(&nodes[k], "bookmarkStart") {
            match find_attr(&nodes[k].attrs, "name") {
                Some(nm) => insert_bookmark(m, nm.clone(), idx),
                None => {},
            }
        }
        k = k + 1;
    }
}

/// The element names that the index tells apart are distinct.
proof fn lemma_tag_names_distinct()
    ensures
        "p"@ != "tbl"@,
        "p"@ != "drawing"@,
        "p"@ != "commentRangeStart"@,
        "p"@ != "ins"@,
        "p"@ != "del"@,
        "tbl"@ != "drawing"@,
        "tbl"@ != "commentRangeStart"@,
        "tbl"@ != "ins"@,
        "tbl"@ != "del"@,
        "drawing"@ != "commentRangeStart"@,
        "drawing"@ != "ins"@,
        "drawing"@ != "del"@,
        "commentRangeStart"@ != "ins"@,
        "commentRangeStart"@ != "del"@,
        "ins"@ != "del"@,
{
    reveal_strlit("p");
    reveal_strlit("tbl");
    reveal_strlit("drawing");
    reveal_strlit("commentRangeStart");
    reveal_strlit("ins");
    reveal_strlit("del");
    assert("p"@.len() == 1);
    assert("tbl"@.len() == 3);
    assert("drawing"@.len() == 7);
    assert("commentRangeStart"@.len() == 17);
    assert("ins"@[0] != "del"@[0]);
    assert("tbl"@[0] != "ins"@[0]);
    assert("tbl"@[0] != "del"@[0]);
    assert("drawing"@[1] != "del"@[1]);
}

/// One step of each running summary: a node that is not of the kind a
/// summary collects leaves it as it was.
proof fn lemma_index_step(nv: Seq<NodeView>, rv: RelsView, k: int)
    requires
        0 <= k < nv.len(),
    ensures
        !is_body_paragraph(nv, k) ==> paragraphs_upto(nv, k + 1) == paragraphs_upto(nv, k)
            && headings_upto(nv, k + 1) == headings_upto(nv, k) && bookmarks_upto(nv, k + 1)
            == bookmarks_upto(nv, k),
        !has_tag(nv[k], "tbl"@) ==> tables_upto(nv, k + 1) == tables_upto(nv, k),
        !has_tag(nv[k], "drawing"@) ==> images_upto(nv, rv, k + 1) == images_upto(nv, rv, k),
        !has_tag(nv[k], "commentRangeStart"@) ==> tag_count_upto(nv, k + 1, "commentRangeStart"@)
            == tag_count_upto(nv, k, "commentRangeStart"@),
        !has_tag(nv[k], "ins"@) ==> tag_count_upto(nv, k + 1, "ins"@) == tag_count_upto(nv, k, "ins"@),
        !has_tag(nv[k], "del"@) ==> tag_count_upto(nv, k + 1, "del"@) == tag_count_upto(nv, k, "del"@),
        has_tag(nv[k], "commentRangeStart"@) ==> tag_count_upto(nv, k + 1, "commentRangeStart"@)
            == tag_count_upto(nv, k, "commentRangeStart"@) + 1,
        has_tag(nv[k], "ins"@) ==> tag_count_upto(nv, k + 1, "ins"@) == tag_count_upto(nv, k, "ins"@) + 1,
        has_tag(nv[k], "del"@) ==> tag_count_upto(nv, k + 1, "del"@) == tag_count_upto(nv, k, "del"@) + 1,
        !is_revision(nv[k]) ==> authors_upto(nv, k + 1) == authors_upto(nv, k),
{
}

proof fn lemma_counts_bounded(nodes: Seq<NodeView>, n: int)
    requires
        n >= 0,
    ensures
        paragraphs_upto(nodes, n).len() <= n,
        tables_upto(nodes, n).len() <= n,
        headings_upto(nodes, n).len() <= n,
        tag_count_upto(nodes, n, "commentRangeStart"@) <= n,
        tag_count_upto(nodes, n, "ins"@) + tag_count_upto(nodes, n, "del"@) <= n,
    decreases n,
{
    if n > 0 {
        lemma_counts_bounded(nodes, n - 1);
        lemma_tag_names_distinct();
    }
}

proof fn lemma_images_bounded(nodes: Seq<NodeView>, rels: RelsView, n: int)
    requires
        n >= 0,
    ensures
        images_upto(nodes, rels, n).len() <= n,
    decreases n,
{
    if n > 0 {
        lemma_images_bounded(nodes, rels, n - 1);
    }
}

/// The view of an index under construction, after nodes `0 .. k`.
pub open spec fn index_after(ix: IndexView, nodes: Seq<NodeView>, rels: RelsView, k: int) -> bool {
    &&& ix.part_path == "word/document.xml"@
    &&& ix.paragraphs == paragraphs_upto(nodes, k)
    &&& ix.tables == tables_upto(nodes, k)
    &&& ix.images == images_upto(nodes, rels, k)
    &&& ix.headings == headings_upto(nodes, k)
    &&& ix.bookmarks == bookmarks_upto(nodes, k)
    &&& ix.comment_count == tag_count_upto(nodes, k, "commentRangeStart"@)
    &&& ix.insertions == tag_count_upto(nodes, k, "ins"@)
    &&& ix.deletions == tag_count_upto(nodes, k, "del"@)
    &&& ix.change_count == tag_count_upto(nodes, k, "ins"@) + tag_count_upto(nodes, k, "del"@)
    &&& ix.authors == authors_upto(nodes, k)
}

/// Folds node `k` into the index.
fn index_node(index: &mut DocumentIndex, nodes: &Vec<XmlNode>, rels: &Vec<(String, String)>, k: usize)
    requires
        k < nodes.len(),
        index_after(old(index)@, nodes_view(nodes@), rels_view(rels@), k as int),
    ensures
        index_after(final(index)@, nodes_view(nodes@), rels_view(rels@), k + 1),
{
    let ghost nv = nodes_view(nodes@);
    let ghost rv = rels_view(rels@);
    proof {
        lemma_counts_bounded(nv, k as int);
        lemma_images_bounded(nv, rv, k as int);
        lemma_tag_names_distinct();
        lemma_index_step(nv, rv, k as int);
    }
    assert(nv[k as int] == nodes@[k as int]@);
    let n = &nodes[k];
    if !n.is_element {
        return;
    }
    if node_has_tag(n, "p") {
        if inside_tag(nodes, k, "tbl") {
            return;
        }
        assert(is_body_paragraph(nv, k as int));
        let end = node_subtree_end(nodes, k);
        let idx = index.paragraphs.len();
        let entry = build_paragraph_entry(nodes, k, end, idx);
        let level = heading_level(&entry.style);
        let ghost hv = index@.headings;
        match level {
            Some(l) => {
                index.headings.push(HeadingEntry { paragraph_index: idx, level: l, text: entry.text.clone() });
                assert(index@.headings =~= hv.push(index.headings@.last()@));
            },
            None => {},
        }
        assert(index@.headings == headings_upto(nv, k + 1));
        collect_bookmarks(nodes, k + 1, end, idx, &mut index.bookmarks);
        assert(index@.bookmarks == bookmarks_upto(nv, k + 1));
        let ghost pv = index@.paragraphs;
        index.paragraphs.push(entry);
        assert(index@.paragraphs =~= pv.push(index.paragraphs@.last()@));
        assert(index@.paragraphs == paragraphs_upto(nv, k + 1));
    } else if node_has_tag(n, "tbl") {
        let end = node_subtree_end(nodes, k);
        let pl = index.paragraphs.len();
        let last = if pl > 0 {
            Some(pl - 1)
        } else {
            None
        };
        let entry = TableEntry {
            index: index.tables.len(),
            paragraph_index: last,
            rows: child_count(nodes, k, k + 1, end, "tr"),
            cols: max_cols(nodes, k, k + 1, end),
            byte_offset: n.start,
            byte_end: n.end,
        };
        let ghost tv = index@.tables;
        index.tables.push(entry);
        assert(index@.tables =~= tv.push(index.tables@.last()@));
        assert(index@.tables == tables_upto(nv, k + 1));
    } else if node_has_tag(n, "drawing") {
        let pl = index.paragraphs.len();
        if pl > 0 {
            let end = node_subtree_end(nodes, k);
            match image_target(nodes, k, end, rels) {
                Some((rid, target)) => {
                    let entry = ImageEntry {
                        index: index.images.len(),
                        paragraph_index: pl - 1,
                        relationship_id: rid,
                        target,
                        byte_offset: n.start,
                        byte_end: n.end,
                    };
                    let ghost iv = index@.images;
                    index.images.push(entry);
                    assert(index@.images =~= iv.push(index.images@.last()@));
                    assert(index@.images == images_upto(nv, rv, k + 1));
                },
                None => {},
            }
        }
    } else if node_has_tag(n, "commentRangeStart") {
        index.comments.count = index.comments.count + 1;
    } else if node_has_tag(n, "ins") || node_has_tag(n, "del") {
        index.tracked_changes.count = index.tracked_changes.count + 1;
        if node_has_tag(n, "ins") {
            index.tracked_changes.insertions = index.tracked_changes.insertions + 1;
        } else {
            index.tracked_changes.deletions = index.tracked_changes.deletions + 1;
        }
        match find_attr(&n.attrs, "author") {
            Some(a) => push_author(&mut index.tracked_changes.authors, a),
            None => {},
        }
        assert(index@.authors == authors_upto(nv, k + 1));
    }
}

impl DocumentIndex {
    /// An empty index of `word/document.xml`.
    pub fn empty() -> (r: DocumentIndex)
        ensures
            index_after(r@, Seq::empty(), Seq::empty(), 0),
    {
        let r = DocumentIndex {
            part_path: String::from_str("word/document.xml"),
            paragraphs: Vec::new(),
            tables: Vec::new(),
            images: Vec::new(),
            headings: Vec::new(),
            bookmarks: Vec::new(),
            comments: CommentSummary { count: 0 },
            tracked_changes: TrackedChangeSummary { count: 0, insertions: 0, deletions: 0, authors: Vec::new() },
        };
        assert(r@.paragraphs =~= Seq::empty());
        assert(r@.tables =~= Seq::empty());
        assert(r@.images =~= Seq::empty());
        assert(r@.headings =~= Seq::empty());
        assert(r@.bookmarks =~= Seq::empty());
        assert(r@.authors =~= Seq::empty());
        r
    }

    /// Indexes the main document part, without relationships.
    pub fn build(xml_bytes: &[u8]) -> (r: Result<DocumentIndex, DocliError>)
        ensures
            match index_outcome(xml_bytes@, None) {
                Ok(v) => r matches Ok(i) && i@ == v,
                Err(e) => r matches Err(x) && x.view_pair() == (ErrorCode::InvalidDocx, e),
            },
    {
        Self::build_with_relationships(xml_bytes, None)
    }

    /// Indexes a document part; `rels_xml` is its relationships part, used to
    /// resolve picture targets.
    pub fn build_with_relationships(xml_bytes: &[u8], rels_xml: Option<&[u8]>) -> (r: Result<
        DocumentIndex,
        DocliError,
    >)
        ensures
            match index_outcome(
                xml_bytes@,
                match rels_xml {
                    Some(b) => Some(b@),
                    None => None,
                },
            ) {
                Ok(v) => r matches Ok(i) && i@ == v,
                Err(e) => r matches Err(x) && x.view_pair() == (ErrorCode::InvalidDocx, e),
            },
    {
        let text = match utf8_str(xml_bytes) {
            Some(t) => t,
            None => {
                return Err(DocliError::InvalidDocx { message: utf8_error_message(xml_bytes) });
            },
        };
        let rels = parse_relationships(rels_xml)?;
        let doc = match parse_xml(text) {
            Ok(d) => d,
            Err(e) => {
                return Err(DocliError::InvalidDocx { message: e });
            },
        };
        let ghost nv = nodes_view(doc.nodes@);
        let ghost rv = rels_view(rels@);
        assert(doc@.nodes == nv);
        let mut index = DocumentIndex::empty();
        let mut k: usize = 0;
        while k < doc.nodes.len()
            invariant
                0 <= k <= doc.nodes.len(),
                nv == nodes_view(doc.nodes@),
                rv == rels_view(rels@),
                index_after(index@, nv, rv, k as int),
            decreases doc.nodes.len() - k,
        {
            index_node(&mut index, &doc.nodes, &rels, k);
            k = k + 1;
        }
        assert(index@ == index_of(nv, rv));
        Ok(index)
    }
}

proof fn lemma_subtree_end_from_bounded(nodes: Seq<NodeView>, i: int, k: int)
    requires
        k <= nodes.len(),
    ensures
        crate::xml::subtree_end_from(nodes, i, k) <= nodes.len(),
    decreases nodes.len() - k,
{
    if k < nodes.len() && k > i && crate::xml::descends(nodes, k, i) {
        lemma_subtree_end_from_bounded(nodes, i, k + 1);
    }
}

/// The subtree of a node ends within the nodes.
proof fn lemma_subtree_end_bounded(nodes: Seq<NodeView>, i: int)
    requires
        0 <= i < nodes.len(),
    ensures
        i + 1 <= subtree_end(nodes, i) <= nodes.len(),
{
    lemma_subtree_end_from_bounded(nodes, i, i + 1);
    crate::xml::lemma_subtree_end_from_grows(nodes, i, i + 1);
}

proof fn lemma_child_count_bounded(nodes: Seq<NodeView>, i: int, from: int, to: int, name: Seq<char>)
    ensures
        child_count_in(nodes, i, from, to, name) <= if to > from {
            to - from
        } else {
            0
        },
    decreases to - from,
{
    if to > from {
        lemma_child_count_bounded(nodes, i, from, to - 1, name);
    }
}

/// The number of `tc` children of row `j`.
pub open spec fn cells_of(nodes: Seq<NodeView>, j: int) -> nat {
    child_count_in(nodes, j, j + 1, subtree_end(nodes, j), "tc"@)
}

/// Node `j`, among nodes `from .. to`, is a `tr` child of node `i`.
pub open spec fn row_of(nodes: Seq<NodeView>, i: int, from: int, to: int, j: int) -> bool {
    from <= j < to && parent_of(nodes, j) == Some(i) && has_tag(nodes[j], "tr"@)
}

/// The widest row bounds every row and is one of them.
proof fn lemma_max_cols(nodes: Seq<NodeView>, i: int, from: int, to: int)
    ensures
        forall|j: int| #[trigger] row_of(nodes, i, from, to, j) ==> cells_of(nodes, j) <= max_cols_in(nodes, i, from, to),
        max_cols_in(nodes, i, from, to) > 0 ==> exists|j: int|
            #[trigger] row_of(nodes, i, from, to, j) && cells_of(nodes, j) == max_cols_in(nodes, i, from, to),
        max_cols_in(nodes, i, from, to) <= nodes.len(),
    decreases to - from,
{
    if to > from {
        lemma_max_cols(nodes, i, from, to - 1);
        let k = to - 1;
        assert forall|j: int| #[trigger] row_of(nodes, i, from, to, j) implies cells_of(nodes, j) <= max_cols_in(
            nodes,
            i,
            from,
            to,
        ) by {
            if j < k {
                assert(row_of(nodes, i, from, to - 1, j));
            }
        }
        if max_cols_in(nodes, i, from, to) > 0 && max_cols_in(nodes, i, from, to) != max_cols_in(nodes, i, from, to - 1) {
            assert(row_of(nodes, i, from, to, k));
        } else if max_cols_in(nodes, i, from, to) > 0 {
            let j = choose|j: int| #[trigger] row_of(nodes, i, from, to - 1, j) && cells_of(nodes, j) == max_cols_in(
                nodes,
                i,
                from,
                to - 1,
            );
            assert(row_of(nodes, i, from, to, j));
        }
        if parent_of(nodes, k) == Some(i) && has_tag(nodes[k], "tr"@) {
            lemma_subtree_end_bounded(nodes, k);
            lemma_child_count_bounded(nodes, k, k + 1, subtree_end(nodes, k), "tc"@);
        }
    }
}

/// Each table among nodes `0 .. n` comes from a `tbl` element among them.
proof fn lemma_table_entries(nodes: Seq<NodeView>, n: int, t: int)
    requires
        n <= usize::MAX,
        0 <= t < tables_upto(nodes, n).len(),
    ensures
        exists|k: int|
            0 <= k < n && #[trigger] has_tag(nodes[k], "tbl"@) && ({
                let e = tables_upto(nodes, n)[t];
                &&& e.index == t
                &&& e.byte_offset == nodes[k].start
                &&& e.byte_end == nodes[k].end
                &&& e.rows == child_count_in(nodes, k, k + 1, subtree_end(nodes, k), "tr"@) as usize
                &&& e.cols == max_cols_in(nodes, k, k + 1, subtree_end(nodes, k)) as usize
            }),
    decreases n,
{
    if n > 0 {
        let prev = tables_upto(nodes, n - 1);
        lemma_counts_bounded(nodes, n - 1);
        if has_tag(nodes[n - 1], "tbl"@) && t == prev.len() {
        } else {
            lemma_table_entries(nodes, n - 1, t);
            let k = choose|k: int|
                0 <= k < n - 1 && #[trigger] has_tag(nodes[k], "tbl"@) && ({
                    let e = prev[t];
                    &&& e.index == t
                    &&& e.byte_offset == nodes[k].start
                    &&& e.byte_end == nodes[k].end
                    &&& e.rows == child_count_in(nodes, k, k + 1, subtree_end(nodes, k), "tr"@) as usize
                    &&& e.cols == max_cols_in(nodes, k, k + 1, subtree_end(nodes, k)) as usize
                });
            assert(tables_upto(nodes, n)[t] == prev[t]);
        }
    }
}

/// Every table of the index comes from a `tbl` element of the document and
/// spans it, and carries its own position as its index; its row count is the number of `tr` children of that element,
/// and its column count is the number of `tc` children of its widest row:
/// no row has more cells, and with any cells at all some row has exactly
/// that many.
pub proof fn law_table_dimensions(nodes: Seq<NodeView>, rels: RelsView, t: int)
    requires
        nodes.len() <= usize::MAX,
        0 <= t < index_of(nodes, rels).tables.len(),
    ensures
        exists|k: int|
            0 <= k < nodes.len() && #[trigger] has_tag(nodes[k], "tbl"@) && ({
                let e = index_of(nodes, rels).tables[t];
                let end = subtree_end(nodes, k);
                &&& e.index == t
                &&& e.byte_offset == nodes[k].start
                &&& e.byte_end == nodes[k].end
                &&& e.rows == child_count_in(nodes, k, k + 1, end, "tr"@)
                &&& forall|j: int| #[trigger] row_of(nodes, k, k + 1, end, j) ==> cells_of(nodes, j) <= e.cols
                &&& e.cols > 0 ==> exists|j: int| #[trigger] row_of(nodes, k, k + 1, end, j) && cells_of(nodes, j) == e.cols
            }),
{
    let n = nodes.len() as int;
    lemma_table_entries(nodes, n, t);
    let k = choose|k: int|
        0 <= k < n && #[trigger] has_tag(nodes[k], "tbl"@) && ({
            let e = tables_upto(nodes, n)[t];
            &&& e.index == t
            &&& e.byte_offset == nodes[k].start
            &&& e.byte_end == nodes[k].end
            &&& e.rows == child_count_in(nodes, k, k + 1, subtree_end(nodes, k), "tr"@) as usize
            &&& e.cols == max_cols_in(nodes, k, k + 1, subtree_end(nodes, k)) as usize
        });
    let end = subtree_end(nodes, k);
    lemma_subtree_end_bounded(nodes, k);
    lemma_child_count_bounded(nodes, k, k + 1, end, "tr"@);
    lemma_max_cols(nodes, k, k + 1, end);
    let e = index_of(nodes, rels).tables[t];
    assert(e.rows == child_count_in(nodes, k, k + 1, end, "tr"@));
    assert(e.cols == max_cols_in(nodes, k, k + 1, end));
}

} // verus!
