//! Replacing a character range of a paragraph's text.
//!
//! The paragraph is found by byte offset: the last `<w:p` that starts at or
//! before the offset, else the first one after it, up to the end of its
//! self-closing tag or its first `</w:p>`. That slice is parsed on its own;
//! its runs are the `r` elements below its root, each with the source of its
//! first `rPr` and the text of its `t` elements. The runs are cut at the two character
//! offsets, the middle is replaced by one run holding the new text with the
//! formatting of the first replaced run (or of the last run before the
//! range), neighbouring runs of equal formatting are merged, and the
//! paragraph is written anew: its start tag, its `pPr`, then its runs.

use vstd::prelude::*;
use vstd::slice::slice_subrange;
use vstd::utf8::{decode_utf8, encode_utf8, is_char_boundary, valid_utf8};

use crate::bytes::{
    extend_range, find_bytes_from, find_from, lossy_string, rfind_bytes_upto, rfind_from, str_eq, utf8_error_message,
    utf8_error_text, utf8_lossy, utf8_str,
};
use crate::comments::err_pair;
use crate::error::{DocliError, ErrorCode};
use crate::markup::{chars_utf8, decimal, escape_xml_chars, push_decimal, push_escaped};
use crate::part_graph::PartGraph;
use crate::text::{chars_of, concat_message, push_all_chars, push_str_chars, string_from_chars};
use crate::xml::{
    first_tag, first_tag_in, has_tag, node_has_tag, node_subtree_end, nodes_view, parse_xml, roxml_document,
    subtree_end, tag_text, tag_text_in, DocView, NodeView, XmlNode,
};

verus! {

/// `<w:p`.
pub open spec fn p_open() -> Seq<u8> {
    seq![0x3Cu8, 0x77u8, 0x3Au8, 0x70u8]
}

/// `</w:p>`.
pub open spec fn p_close() -> Seq<u8> {
    seq![0x3Cu8, 0x2Fu8, 0x77u8, 0x3Au8, 0x70u8, 0x3Eu8]
}

/// `/>`.
pub open spec fn self_close() -> Seq<u8> {
    seq![0x2Fu8, 0x3Eu8]
}

/// `>`.
pub open spec fn tag_close() -> Seq<u8> {
    seq![0x3Eu8]
}

/// `<w:pPr`.
pub open spec fn ppr_open() -> Seq<u8> {
    seq![0x3Cu8, 0x77u8, 0x3Au8, 0x70u8, 0x50u8, 0x72u8]
}

/// `</w:pPr>`.
pub open spec fn ppr_close() -> Seq<u8> {
    seq![0x3Cu8, 0x2Fu8, 0x77u8, 0x3Au8, 0x70u8, 0x50u8, 0x72u8, 0x3Eu8]
}

/// The first occurrence of `needle` in `x[from..to]`.
pub open spec fn find_within(x: Seq<u8>, needle: Seq<u8>, from: int, to: int) -> Option<int> {
    match find_from(x, needle, from) {
        Some(i) => if i + needle.len() <= to {
            Some(i)
        } else {
            None
        },
        None => None,
    }
}

/// The end of the region searched backwards for the paragraph at byte
/// offset `off`: it takes in a `<w:p` that starts at the offset itself.
pub open spec fn start_search_end(x: Seq<u8>, off: int) -> int {
    if off + 4 <= x.len() {
        off + 4
    } else {
        x.len() as int
    }
}

/// Where the paragraph at byte offset `off` starts: the last `<w:p` that
/// starts at or before the offset, else the first one after it.
pub open spec fn paragraph_start(x: Seq<u8>, off: int) -> Option<int> {
    match rfind_from(x, p_open(), start_search_end(x, off) - 4) {
        Some(i) => Some(i),
        None => find_from(x, p_open(), off),
    }
}

/// Where the paragraph that starts at `ps` ends: after its self-closing tag,
/// or after its first `</w:p>`.
pub open spec fn paragraph_end(x: Seq<u8>, ps: int) -> Option<int> {
    match find_from(x, self_close(), ps) {
        Some(c) if find_from(x, tag_close(), ps) == Some(c + 1) => Some(c + 2),
        _ => match find_from(x, p_close(), ps) {
            Some(i) => Some(i + 6),
            None => None,
        },
    }
}

/// The `pPr` block of the paragraph `x[ps..pe]`: from its first `<w:pPr` to
/// the end of its first `</w:pPr>`.
pub open spec fn paragraph_properties(x: Seq<u8>, ps: int, pe: int) -> Option<Seq<u8>> {
    match (find_within(x, ppr_open(), ps, pe), find_within(x, ppr_close(), ps, pe)) {
        (Some(s), Some(e)) => Some(x.subrange(s, e + 8)),
        _ => None,
    }
}

/// Slicing at the offset and at the `pPr` block stays within the text and on
/// character boundaries.
pub open spec fn replace_slices_ok(x: Seq<u8>, off: int) -> bool {
    let lim = if off < x.len() {
        off
    } else {
        x.len() as int
    };
    &&& is_char_boundary(x, lim)
    &&& rfind_from(x, p_open(), start_search_end(x, off) - 4) is None ==> off <= x.len() && is_char_boundary(
        x,
        off,
    )
    &&& match paragraph_start(x, off) {
        Some(ps) => match paragraph_end(x, ps) {
            Some(pe) => match (find_within(x, ppr_open(), ps, pe), find_within(x, ppr_close(), ps, pe)) {
                (Some(s), Some(e)) => s <= e + 8,
                _ => true,
            },
            None => true,
        },
        None => true,
    }
}

/// A run: its formatting markup and its text.
pub struct RunView {
    pub props: Option<Seq<char>>,
    pub text: Seq<char>,
}

/// The source of the first `rPr` below run `j`.
pub open spec fn run_props(x: Seq<u8>, nodes: Seq<NodeView>, j: int) -> Option<Seq<char>> {
    match first_tag_in(nodes, j + 1, subtree_end(nodes, j), "rPr"@) {
        Some(q) => if nodes[q].start <= nodes[q].end <= x.len() {
            Some(utf8_lossy(x.subrange(nodes[q].start as int, nodes[q].end as int)))
        } else {
            None
        },
        None => None,
    }
}

/// The runs among nodes `from .. to`.
pub open spec fn runs_in(x: Seq<u8>, nodes: Seq<NodeView>, from: int, to: int) -> Seq<RunView>
    decreases to - from,
{
    if to <= from {
        Seq::empty()
    } else {
        runs_in(x, nodes, from, to - 1) + if has_tag(nodes[to - 1], "r"@) {
            seq![
                RunView {
                    props: run_props(x, nodes, to - 1),
                    text: tag_text_in(nodes, to, subtree_end(nodes, to - 1), "t"@),
                },
            ]
        } else {
            Seq::empty()
        }
    }
}

/// The first element among nodes `k ..` that starts at byte `pos`.
pub open spec fn element_at(nodes: Seq<NodeView>, pos: int, k: int) -> Option<int>
    decreases nodes.len() - k,
{
    if k < 0 || k >= nodes.len() {
        None
    } else if nodes[k].is_element && nodes[k].start == pos {
        Some(k)
    } else {
        element_at(nodes, pos, k + 1)
    }
}

/// The runs of the element that starts at byte `ps`.
pub open spec fn paragraph_runs(x: Seq<u8>, nodes: Seq<NodeView>, ps: int) -> Seq<RunView> {
    match element_at(nodes, ps, 0) {
        Some(k) => runs_in(x, nodes, k + 1, subtree_end(nodes, k)),
        None => Seq::empty(),
    }
}

/// The number of characters of the runs' text.
pub open spec fn text_len(runs: Seq<RunView>) -> int
    decreases runs.len(),
{
    if runs.len() == 0 {
        0
    } else {
        text_len(runs.drop_last()) + runs.last().text.len()
    }
}

pub open spec fn clamp(v: int, hi: int) -> int {
    if v < 0 {
        0
    } else if v > hi {
        hi
    } else {
        v
    }
}

/// The part of run `r`, whose text starts at character `pos`, that falls in
/// `[lo, hi)`; with no `hi`, from `lo` to the end.
pub open spec fn piece(r: RunView, pos: int, lo: int, hi: Option<int>) -> Seq<RunView> {
    let s = clamp(lo - pos, r.text.len() as int);
    let e = match hi {
        Some(h) => clamp(h - pos, r.text.len() as int),
        None => r.text.len() as int,
    };
    if s < e {
        seq![RunView { props: r.props, text: r.text.subrange(s, e) }]
    } else {
        Seq::empty()
    }
}

/// The runs cut to the characters `[lo, hi)`, or from `lo` on.
pub open spec fn cut(runs: Seq<RunView>, lo: int, hi: Option<int>) -> Seq<RunView>
    decreases runs.len(),
{
    if runs.len() == 0 {
        Seq::empty()
    } else {
        cut(runs.drop_last(), lo, hi) + piece(runs.last(), text_len(runs.drop_last()), lo, hi)
    }
}

/// Runs with neighbours of equal formatting merged.
pub open spec fn merge_runs(runs: Seq<RunView>) -> Seq<RunView>
    decreases runs.len(),
{
    if runs.len() == 0 {
        Seq::empty()
    } else {
        let m = merge_runs(runs.drop_last());
        let f = runs.last();
        if m.len() > 0 && m.last().props == f.props {
            m.drop_last().push(RunView { props: f.props, text: m.last().text + f.text })
        } else {
            m.push(f)
        }
    }
}

/// The runs after replacing characters `[a, b)` with `new_text`.
pub open spec fn replaced_runs(runs: Seq<RunView>, a: int, b: int, new_text: Seq<char>) -> Seq<RunView> {
    let before = cut(runs, 0, Some(a));
    let target = cut(runs, a, Some(b));
    let after = cut(runs, b, None);
    let first = if target.len() > 0 {
        target[0].props
    } else {
        None
    };
    let props = match first {
        Some(p) => Some(p),
        None => if before.len() > 0 {
            before.last().props
        } else {
            None
        },
    };
    merge_runs(
        before + (if new_text.len() > 0 {
            seq![RunView { props, text: new_text }]
        } else {
            Seq::empty()
        }) + after,
    )
}

/// The markup of one run.
pub open spec fn run_markup(r: RunView) -> Seq<char> {
    "<w:r>"@ + (match r.props {
        Some(p) => p,
        None => Seq::empty(),
    }) + "<w:t xml:space=\"preserve\">"@ + escape_xml_chars(r.text) + "</w:t></w:r>"@
}

pub open spec fn runs_markup(runs: Seq<RunView>) -> Seq<char>
    decreases runs.len(),
{
    if runs.len() == 0 {
        Seq::empty()
    } else {
        runs_markup(runs.drop_last()) + run_markup(runs.last())
    }
}

/// The rewritten paragraph `x[ps..pe]` holding `runs`.
pub open spec fn new_paragraph(x: Seq<u8>, ps: int, pe: int, runs: Seq<RunView>) -> Seq<u8> {
    let tag_end = find_from(x, tag_close(), ps).unwrap();
    p_open() + x.subrange(ps + 4, tag_end) + tag_close() + (match paragraph_properties(x, ps, pe) {
        Some(p) => p,
        None => Seq::empty(),
    }) + encode_utf8(runs_markup(runs)) + p_close()
}

/// What replacing characters `[a, b)` of the paragraph at byte `off` of the
/// part `x` with `new_text` gives: the new part, or the error.
pub open spec fn replace_outcome(x: Seq<u8>, off: int, a: int, b: int, new_text: Seq<char>) -> Result<
    Seq<u8>,
    (ErrorCode, Seq<char>),
> {
    if !valid_utf8(x) {
        Err((ErrorCode::InvalidDocx, "invalid UTF-8: "@ + utf8_error_text(x)))
    } else {
        match paragraph_start(x, off) {
            None => Err((ErrorCode::InvalidTarget, "no <w:p> found at byte offset "@ + decimal(off as nat))),
            Some(ps) => match paragraph_end(x, ps) {
                None => Err(
                    (ErrorCode::InvalidDocx, "no closing </w:p> found from offset "@ + decimal(ps as nat)),
                ),
                Some(pe) => match roxml_document(decode_utf8(x.subrange(ps, pe))) {
                    Err(e) => Err((ErrorCode::InvalidDocx, e)),
                    Ok(d) => {
                        let runs = paragraph_runs(x.subrange(ps, pe), d.nodes, 0);
                        if a > b {
                            Err(
                                (
                                    ErrorCode::InvalidTarget,
                                    "character range "@ + decimal(a as nat) + ".."@ + decimal(b as nat)
                                        + " is reversed"@,
                                ),
                            )
                        } else if b > text_len(runs) {
                            Err(
                                (
                                    ErrorCode::InvalidTarget,
                                    "character range "@ + decimal(a as nat) + ".."@ + decimal(b as nat)
                                        + " is outside the paragraph text of "@ + decimal(text_len(runs) as nat)
                                        + " characters"@,
                                ),
                            )
                        } else {
                            Ok(
                                x.subrange(0, ps) + new_paragraph(x, ps, pe, replaced_runs(runs, a, b, new_text))
                                    + x.subrange(pe, x.len() as int),
                            )
                        }
                    },
                },
            },
        }
    }
}

/// A slice of well-formed UTF-8 that starts and ends with an ASCII byte is
/// well-formed UTF-8 itself.
proof fn lemma_ascii_bounded_slice_valid(x: Seq<u8>, ps: int, pe: int)
    requires
        valid_utf8(x),
        0 <= ps < pe <= x.len(),
        x[ps] < 0x80,
        x[pe - 1] < 0x80,
    ensures
        valid_utf8(x.subrange(ps, pe)),
{
    vstd::utf8::is_char_boundary_iff_not_is_continuation_byte(x, pe - 1);
    if pe < x.len() {
        vstd::utf8::valid_utf8_split(x, pe - 1);
        let u = x.subrange(pe - 1, x.len() as int);
        assert(u[0] == x[pe - 1]);
        let rest = vstd::utf8::pop_first_scalar(u);
        assert(rest =~= x.subrange(pe, x.len() as int));
        assert(valid_utf8(rest));
        assert(rest.len() > 0);
        assert(vstd::utf8::valid_first_scalar(rest));
        assert(rest[0] == x[pe]);
        vstd::utf8::is_char_boundary_iff_not_is_continuation_byte(x, pe);
    } else {
        vstd::utf8::is_char_boundary_start_end_of_seq(x);
    }
    vstd::utf8::valid_utf8_split(x, pe);
    let y = x.subrange(0, pe);
    assert(y[ps] == x[ps]);
    vstd::utf8::is_char_boundary_iff_not_is_continuation_byte(y, ps);
    vstd::utf8::valid_utf8_split(y, ps);
    assert(y.subrange(ps, pe) =~= x.subrange(ps, pe));
}

/// A run: its formatting markup and its text.
pub struct RunFragment {
    pub properties: Option<String>,
    pub text: String,
}

impl View for RunFragment {
    type V = RunView;

    open spec fn view(&self) -> RunView {
        RunView { props: crate::xml::opt_string_view(self.properties), text: self.text@ }
    }
}

pub open spec fn runs_view(v: Seq<RunFragment>) -> Seq<RunView> {
    v.map_values(|r: RunFragment| r@)
}

fn needle(bytes: &[u8]) -> (r: Vec<u8>)
    ensures
        r@ == bytes@,
{
    let mut v: Vec<u8> = Vec::new();
    extend_range(&mut v, bytes, 0, bytes.len());
    assert(bytes@.subrange(0, bytes@.len() as int) =~= bytes@);
    v
}

fn p_open_bytes() -> (r: Vec<u8>)
    ensures
        r@ == p_open(),
{
    let r = vec![0x3Cu8, 0x77u8, 0x3Au8, 0x70u8];
    assert(r@ =~= p_open());
    r
}

/// Where the paragraph at byte offset `byte_offset` starts: the last `<w:p`
/// that starts at or before the offset, else the first one after it.
fn find_paragraph_start(xml: &[u8], byte_offset: usize) -> (r: Result<usize, DocliError>)
    ensures
        r matches Ok(i) ==> paragraph_start(xml@, byte_offset as int) == Some(i as int)
            && crate::bytes::matches_at(xml@, p_open(), i as int),
        match paragraph_start(xml@, byte_offset as int) {
            Some(i) => r is Ok,
            None => err_pair(r) == Some(
                (ErrorCode::InvalidTarget, "no <w:p> found at byte offset "@ + decimal(byte_offset as nat)),
            ),
        },
{
    let n = p_open_bytes();
    let lim = if byte_offset <= xml.len() && xml.len() - byte_offset >= 4 {
        byte_offset + 4
    } else {
        xml.len()
    };
    if let Some(i) = rfind_bytes_upto(xml, n.as_slice(), lim) {
        return Ok(i);
    }
    proof {
        crate::bytes::lemma_find_from_matches(xml@, p_open(), byte_offset as int);
    }
    if let Some(i) = find_bytes_from(xml, n.as_slice(), byte_offset) {
        return Ok(i);
    }
    let mut msg: Vec<char> = Vec::new();
    push_str_chars(&mut msg, "no <w:p> found at byte offset ");
    push_decimal(&mut msg, byte_offset as u64);
    assert(msg@ =~= "no <w:p> found at byte offset "@ + decimal(byte_offset as nat));
    Err(DocliError::InvalidTarget { message: string_from_chars(&msg) })
}

/// Where the paragraph that starts at `para_start` ends.
fn find_paragraph_end(xml: &[u8], para_start: usize) -> (r: Result<usize, DocliError>)
    ensures
        r matches Ok(i) ==> paragraph_end(xml@, para_start as int) == Some(i as int) && i <= xml.len()
            && para_start < i && xml@[i - 1] == 0x3Eu8,
        match paragraph_end(xml@, para_start as int) {
            Some(i) => r is Ok,
            None => err_pair(r) == Some(
                (ErrorCode::InvalidDocx, "no closing </w:p> found from offset "@ + decimal(para_start as nat)),
            ),
        },
{
    let close = vec![0x2Fu8, 0x3Eu8];
    let gt = vec![0x3Eu8];
    let end_tag = vec![0x3Cu8, 0x2Fu8, 0x77u8, 0x3Au8, 0x70u8, 0x3Eu8];
    assert(close@ =~= self_close());
    assert(gt@ =~= tag_close());
    assert(end_tag@ =~= p_close());
    let xlen = xml.len();
    if let Some(c) = find_bytes_from(xml, close.as_slice(), para_start) {
        assert(c + 2 <= xlen);
        if let Some(o) = find_bytes_from(xml, gt.as_slice(), para_start) {
            if o == c + 1 {
                assert(xml@.subrange(c as int, c + 2)[1] == xml@[c + 1]);
                return Ok(c + 2);
            }
        }
    }
    if let Some(i) = find_bytes_from(xml, end_tag.as_slice(), para_start) {
        assert(i + 6 <= xlen);
        assert(xml@.subrange(i as int, i + 6)[5] == xml@[i + 5]);
        return Ok(i + 6);
    }
    let mut msg: Vec<char> = Vec::new();
    push_str_chars(&mut msg, "no closing </w:p> found from offset ");
    push_decimal(&mut msg, para_start as u64);
    assert(msg@ =~= "no closing </w:p> found from offset "@ + decimal(para_start as nat));
    Err(DocliError::InvalidDocx { message: string_from_chars(&msg) })
}

/// The first occurrence of `needle` within `xml[from..to]`.
fn find_within_exec(xml: &[u8], needle: &[u8], from: usize, to: usize) -> (r: Option<usize>)
    requires
        needle.len() > 0,
    ensures
        match find_within(xml@, needle@, from as int, to as int) {
            Some(i) => r == Some(i as usize) && from <= i && i + needle@.len() <= to,
            None => r is None,
        },
{
    match find_bytes_from(xml, needle, from) {
        Some(i) => if i <= to && needle.len() <= to - i {
            Some(i)
        } else {
            None
        },
        None => None,
    }
}

/// The `pPr` block of the paragraph `xml[para_start..para_end]`, as bytes.
fn extract_paragraph_properties(xml: &[u8], para_start: usize, para_end: usize) -> (r: Option<Vec<u8>>)
    requires
        para_end <= xml.len(),
        match (
            find_within(xml@, ppr_open(), para_start as int, para_end as int),
            find_within(xml@, ppr_close(), para_start as int, para_end as int),
        ) {
            (Some(s), Some(e)) => s <= e + 8,
            _ => true,
        },
    ensures
        match paragraph_properties(xml@, para_start as int, para_end as int) {
            Some(p) => r matches Some(v) && v@ == p,
            None => r is None,
        },
{
    let open = vec![0x3Cu8, 0x77u8, 0x3Au8, 0x70u8, 0x50u8, 0x72u8];
    let close = vec![0x3Cu8, 0x2Fu8, 0x77u8, 0x3Au8, 0x70u8, 0x50u8, 0x72u8, 0x3Eu8];
    assert(open@ =~= ppr_open());
    assert(close@ =~= ppr_close());
    let start = find_within_exec(xml, open.as_slice(), para_start, para_end)?;
    let end = find_within_exec(xml, close.as_slice(), para_start, para_end)?;
    let mut out: Vec<u8> = Vec::new();
    extend_range(&mut out, xml, start, end + 8);
    Some(out)
}

/// The first element among nodes `from ..` that starts at byte `pos`.
fn element_starting_at(nodes: &Vec<XmlNode>, pos: usize) -> (r: Option<usize>)
    ensures
        r matches Some(k) ==> element_at(nodes_view(nodes@), pos as int, 0) == Some(k as int) && k < nodes.len(),
        r is None ==> element_at(nodes_view(nodes@), pos as int, 0) is None,
{
    let ghost nv = nodes_view(nodes@);
    let mut k: usize = 0;
    while k < nodes.len()
        invariant
            0 <= k <= nodes.len(),
            nv == nodes_view(nodes@),
            element_at(nv, pos as int, 0) == element_at(nv, pos as int, k as int),
        decreases nodes.len() - k,
    {
        assert(nv[k as int] == nodes@[k as int]@);
        if nodes[k].is_element && nodes[k].start == pos {
            return Some(k);
        }
        k = k + 1;
    }
    None
}

/// The runs among nodes `from .. to` of the document `xml`.
fn collect_runs(xml: &[u8], nodes: &Vec<XmlNode>, from: usize, to: usize) -> (r: Vec<RunFragment>)
    requires
        from <= to <= nodes.len(),
    ensures
        runs_view(r@) == runs_in(xml@, nodes_view(nodes@), from as int, to as int),
{
    let ghost nv = nodes_view(nodes@);
    let mut out: Vec<RunFragment> = Vec::new();
    let mut j = from;
    while j < to
        invariant
            from <= j <= to <= nodes.len(),
            nv == nodes_view(nodes@),
            runs_view(out@) == runs_in(xml@, nv, from as int, j as int),
        decreases to - j,
    {
        let ghost before = runs_view(out@);
        assert(nv[j as int] == nodes@[j as int]@);
        if node_has_tag(&nodes[j], "r") {
            let end = node_subtree_end(nodes, j);
            let properties = match first_tag(nodes, j + 1, end, "rPr") {
                Some(q) => {
                    assert(nv[q as int] == nodes@[q as int]@);
                    let (s, e) = (nodes[q].start, nodes[q].end);
                    if s <= e && e <= xml.len() {
                        let mut bytes: Vec<u8> = Vec::new();
                        extend_range(&mut bytes, xml, s, e);
                        Some(lossy_string(bytes.as_slice()))
                    } else {
                        None
                    }
                },
                None => None,
            };
            let text = string_from_chars(&tag_text(nodes, j + 1, end, "t"));
            out.push(RunFragment { properties, text });
            assert(runs_view(out@) =~= before + seq![
                RunView {
                    props: run_props(xml@, nv, j as int),
                    text: tag_text_in(nv, j + 1, subtree_end(nv, j as int), "t"@),
                },
            ]);
        } else {
            assert(runs_view(out@) =~= before + Seq::<RunView>::empty());
        }
        j = j + 1;
    }
    out
}

proof fn lemma_text_len_nonneg(runs: Seq<RunView>)
    ensures
        text_len(runs) >= 0,
    decreases runs.len(),
{
    if runs.len() > 0 {
        lemma_text_len_nonneg(runs.drop_last());
    }
}

/// The number of characters of the runs' text, or `usize::MAX` when larger.
fn total_chars(runs: &Vec<RunFragment>) -> (r: usize)
    ensures
        r as int == if text_len(runs_view(runs@)) < usize::MAX {
            text_len(runs_view(runs@))
        } else {
            usize::MAX as int
        },
{
    let ghost rv = runs_view(runs@);
    let mut total: usize = 0;
    let mut i: usize = 0;
    while i < runs.len()
        invariant
            0 <= i <= runs.len(),
            rv == runs_view(runs@),
            total as int == if text_len(rv.subrange(0, i as int)) < usize::MAX {
                text_len(rv.subrange(0, i as int))
            } else {
                usize::MAX as int
            },
        decreases runs.len() - i,
    {
        let n = chars_of(runs[i].text.as_str()).len();
        assert(rv.subrange(0, i + 1).drop_last() =~= rv.subrange(0, i as int));
        proof {
            lemma_text_len_nonneg(rv.subrange(0, i as int));
        }
        total = total.saturating_add(n);
        i = i + 1;
    }
    assert(rv.subrange(0, i as int) =~= rv);
    total
}

/// The part of `r`, whose text starts at character `pos`, in `[lo, hi)`.
fn run_piece(r: &RunFragment, cs: &Vec<char>, pos: usize, lo: usize, hi: Option<usize>) -> (p: Option<RunFragment>)
    requires
        cs@ == r.text@,
    ensures
        match p {
            Some(f) => piece(r@, pos as int, lo as int, opt_int(hi)) == seq![f@],
            None => piece(r@, pos as int, lo as int, opt_int(hi)) == Seq::<RunView>::empty(),
        },
{
    let len = cs.len();
    let s = if lo <= pos {
        0
    } else if lo - pos > len {
        len
    } else {
        lo - pos
    };
    let e = match hi {
        Some(h) => if h <= pos {
            0
        } else if h - pos > len {
            len
        } else {
            h - pos
        },
        None => len,
    };
    if s < e {
        let mut t: Vec<char> = Vec::new();
        let mut k = s;
        while k < e
            invariant
                s <= k <= e <= cs.len(),
                t@ == cs@.subrange(s as int, k as int),
            decreases e - k,
        {
            t.push(cs[k]);
            k = k + 1;
            assert(t@ =~= cs@.subrange(s as int, k as int));
        }
        let properties = match &r.properties {
            Some(p) => Some(p.clone()),
            None => None,
        };
        Some(RunFragment { properties, text: string_from_chars(&t) })
    } else {
        None
    }
}

pub open spec fn opt_int(o: Option<usize>) -> Option<int> {
    match o {
        Some(v) => Some(v as int),
        None => None,
    }
}

/// The runs cut to the characters `[lo, hi)`, or from `lo` on.
fn cut_runs(runs: &Vec<RunFragment>, lo: usize, hi: Option<usize>) -> (r: Vec<RunFragment>)
    ensures
        runs_view(r@) == cut(runs_view(runs@), lo as int, opt_int(hi)),
{
    let ghost rv = runs_view(runs@);
    let mut out: Vec<RunFragment> = Vec::new();
    let mut pos: usize = 0;
    let mut i: usize = 0;
    assert(rv.subrange(0, 0) =~= Seq::<RunView>::empty());
    while i < runs.len()
        invariant
            0 <= i <= runs.len(),
            rv == runs_view(runs@),
            runs_view(out@) == cut(rv.subrange(0, i as int), lo as int, opt_int(hi)),
            pos as int == if text_len(rv.subrange(0, i as int)) < usize::MAX {
                text_len(rv.subrange(0, i as int))
            } else {
                usize::MAX as int
            },
        decreases runs.len() - i,
    {
        let ghost before = runs_view(out@);
        let ghost prefix = rv.subrange(0, i as int);
        assert(rv.subrange(0, i + 1).drop_last() =~= prefix);
        assert(rv.subrange(0, i + 1).last() == runs@[i as int]@);
        proof {
            lemma_text_len_nonneg(prefix);
        }
        let cs = chars_of(runs[i].text.as_str());
        assert(piece(runs@[i as int]@, pos as int, lo as int, opt_int(hi)) == piece(
            runs@[i as int]@,
            text_len(prefix),
            lo as int,
            opt_int(hi),
        ));
        match run_piece(&runs[i], &cs, pos, lo, hi) {
            Some(f) => {
                out.push(f);
            },
            None => {},
        }
        assert(runs_view(out@) =~= before + piece(runs@[i as int]@, text_len(prefix), lo as int, opt_int(hi)));
        pos = pos.saturating_add(cs.len());
        i = i + 1;
    }
    assert(rv.subrange(0, i as int) =~= rv);
    out
}

/// Whether two runs have the same formatting.
fn same_props(a: &Option<String>, b: &Option<String>) -> (r: bool)
    ensures
        r == (crate::xml::opt_string_view(*a) == crate::xml::opt_string_view(*b)),
{
    match (a, b) {
        (Some(x), Some(y)) => str_eq(x.as_str(), y.as_str()),
        (None, None) => true,
        _ => false,
    }
}

/// A copy of run `r`.
fn copy_run(r: &RunFragment) -> (c: RunFragment)
    ensures
        c@ == r@,
{
    let properties = match &r.properties {
        Some(p) => Some(p.clone()),
        None => None,
    };
    RunFragment { properties, text: r.text.clone() }
}

/// Merges neighbouring runs of equal formatting.
fn merge_adjacent_runs(runs: &Vec<RunFragment>) -> (r: Vec<RunFragment>)
    ensures
        runs_view(r@) == merge_runs(runs_view(runs@)),
{
    let ghost rv = runs_view(runs@);
    let mut out: Vec<RunFragment> = Vec::new();
    let mut i: usize = 0;
    assert(rv.subrange(0, 0) =~= Seq::<RunView>::empty());
    while i < runs.len()
        invariant
            0 <= i <= runs.len(),
            rv == runs_view(runs@),
            runs_view(out@) == merge_runs(rv.subrange(0, i as int)),
        decreases runs.len() - i,
    {
        let ghost m = runs_view(out@);
        assert(rv.subrange(0, i + 1).drop_last() =~= rv.subrange(0, i as int));
        assert(rv.subrange(0, i + 1).last() == runs@[i as int]@);
        let f = &runs[i];
        let merge = out.len() > 0 && same_props(&out[out.len() - 1].properties, &f.properties);
        if merge {
            let last = out.pop().unwrap();
            assert(last@ == m.last());
            let mut t = chars_of(last.text.as_str());
            let ft = chars_of(f.text.as_str());
            push_all_chars(&mut t, &ft);
            let properties = match &f.properties {
                Some(p) => Some(p.clone()),
                None => None,
            };
            out.push(RunFragment { properties, text: string_from_chars(&t) });
            assert(runs_view(out@) =~= m.drop_last().push(RunView { props: f@.props, text: m.last().text + f@.text }));
        } else {
            out.push(copy_run(f));
            assert(runs_view(out@) =~= m.push(f@));
        }
        i = i + 1;
    }
    assert(rv.subrange(0, i as int) =~= rv);
    out
}

/// Appends the markup of run `r`.
fn push_run_markup(out: &mut Vec<char>, r: &RunFragment)
    ensures
        final(out)@ == old(out)@ + run_markup(r@),
{
    let ghost start = out@;
    push_str_chars(out, "<w:r>");
    if let Some(p) = &r.properties {
        push_str_chars(out, p.as_str());
    }
    push_str_chars(out, "<w:t xml:space=\"preserve\">");
    push_escaped(out, r.text.as_str());
    push_str_chars(out, "</w:t></w:r>");
    assert(out@ =~= start + run_markup(r@));
}

/// The rewritten paragraph `xml[para_start..para_end]` holding `runs`.
fn build_paragraph(xml: &[u8], para_start: usize, para_end: usize, runs: &Vec<RunFragment>) -> (r: Vec<u8>)
    requires
        paragraph_end(xml@, para_start as int) == Some(para_end as int),
        para_end <= xml.len(),
        crate::bytes::matches_at(xml@, p_open(), para_start as int),
        match (
            find_within(xml@, ppr_open(), para_start as int, para_end as int),
            find_within(xml@, ppr_close(), para_start as int, para_end as int),
        ) {
            (Some(s), Some(e)) => s <= e + 8,
            _ => true,
        },
    ensures
        r@ == new_paragraph(xml@, para_start as int, para_end as int, runs_view(runs@)),
{
    let gt = vec![0x3Eu8];
    assert(gt@ =~= tag_close());
    proof {
        match find_from(xml@, self_close(), para_start as int) {
            Some(c) if find_from(xml@, tag_close(), para_start as int) == Some(c + 1) => {},
            _ => {
                let i = find_from(xml@, p_close(), para_start as int).unwrap();
                crate::bytes::lemma_find_from_matches(xml@, p_close(), para_start as int);
                assert(xml@.subrange(i, i + 6)[5] == xml@[i + 5]);
                assert(xml@.subrange(i + 5, i + 6) =~= tag_close());
                crate::bytes::lemma_find_from_reaches(xml@, tag_close(), para_start as int, i + 5);
            },
        }
    }
    let tag_end = match find_bytes_from(xml, gt.as_slice(), para_start) {
        Some(t) => t,
        None => {
            proof {
                assert(false);
            }
            0
        },
    };
    assert(tag_end >= para_start + 4) by {
        assert(xml@.subrange(tag_end as int, tag_end + 1)[0] == xml@[tag_end as int]);
        if tag_end < para_start + 4 {
            assert(xml@.subrange(para_start as int, para_start + 4)[tag_end - para_start] == xml@[tag_end as int]);
        }
    }
    let mut out = p_open_bytes();
    extend_range(&mut out, xml, para_start + 4, tag_end);
    out.push(0x3Eu8);
    if let Some(ppr) = extract_paragraph_properties(xml, para_start, para_end) {
        extend_range(&mut out, ppr.as_slice(), 0, ppr.len());
        assert(ppr@.subrange(0, ppr@.len() as int) =~= ppr@);
    }
    let mut markup: Vec<char> = Vec::new();
    let ghost rv = runs_view(runs@);
    let mut i: usize = 0;
    assert(rv.subrange(0, 0) =~= Seq::<RunView>::empty());
    while i < runs.len()
        invariant
            0 <= i <= runs.len(),
            rv == runs_view(runs@),
            markup@ == runs_markup(rv.subrange(0, i as int)),
        decreases runs.len() - i,
    {
        push_run_markup(&mut markup, &runs[i]);
        assert(rv.subrange(0, i + 1).drop_last() =~= rv.subrange(0, i as int));
        i = i + 1;
    }
    assert(rv.subrange(0, i as int) =~= rv);
    let mb = chars_utf8(&markup);
    extend_range(&mut out, mb.as_slice(), 0, mb.len());
    assert(mb@.subrange(0, mb@.len() as int) =~= mb@);
    let close = vec![0x3Cu8, 0x2Fu8, 0x77u8, 0x3Au8, 0x70u8, 0x3Eu8];
    extend_range(&mut out, close.as_slice(), 0, 6);
    assert(close@.subrange(0, 6) =~= p_close());
    assert(out@ =~= new_paragraph(xml@, para_start as int, para_end as int, rv));
    out
}

/// The runs of the element that starts at byte `para_start` of the document `xml`.
fn paragraph_runs_of(xml: &[u8], text: &str, para_start: usize) -> (r: Result<Vec<RunFragment>, DocliError>)
    requires
        text@ == decode_utf8(xml@),
    ensures
        match roxml_document(decode_utf8(xml@)) {
            Err(e) => err_pair(r) == Some((ErrorCode::InvalidDocx, e)),
            Ok(d) => r matches Ok(v) && runs_view(v@) == paragraph_runs(xml@, d.nodes, para_start as int),
        },
{
    let doc = match parse_xml(text) {
        Ok(d) => d,
        Err(e) => {
            return Err(DocliError::InvalidDocx { message: e });
        },
    };
    let ghost nv = nodes_view(doc.nodes@);
    assert(doc@.nodes == nv);
    assert(roxml_document(decode_utf8(xml@)) == Ok::<DocView, Seq<char>>(doc@));
    match element_starting_at(&doc.nodes, para_start) {
        Some(k) => {
            assert(element_at(nv, para_start as int, 0) == Some(k as int));
            let end = node_subtree_end(&doc.nodes, k);
            Ok(collect_runs(xml, &doc.nodes, k + 1, end))
        },
        None => {
            let v: Vec<RunFragment> = Vec::new();
            assert(runs_view(v@) =~= Seq::<RunView>::empty());
            Ok(v)
        },
    }
}

/// The runs after replacing characters `[a, b)` with `new_text`, or the error
/// for a range that is reversed or runs past the text.
fn replace_runs(runs: &Vec<RunFragment>, a: usize, b: usize, new_text: &str) -> (r: Result<
    Vec<RunFragment>,
    DocliError,
>)
    ensures
        ({
            let rv = runs_view(runs@);
            if a > b {
                err_pair(r) == Some(
                    (
                        ErrorCode::InvalidTarget,
                        "character range "@ + decimal(a as nat) + ".."@ + decimal(b as nat) + " is reversed"@,
                    ),
                )
            } else if b > text_len(rv) {
                err_pair(r) == Some(
                    (
                        ErrorCode::InvalidTarget,
                        "character range "@ + decimal(a as nat) + ".."@ + decimal(b as nat)
                            + " is outside the paragraph text of "@ + decimal(text_len(rv) as nat)
                            + " characters"@,
                    ),
                )
            } else {
                r matches Ok(v) && runs_view(v@) == replaced_runs(rv, a as int, b as int, new_text@)
            }
        }),
{
    let ghost rv = runs_view(runs@);
    proof {
        lemma_text_len_nonneg(rv);
    }
    if a > b {
        let mut msg: Vec<char> = Vec::new();
        push_str_chars(&mut msg, "character range ");
        push_decimal(&mut msg, a as u64);
        push_str_chars(&mut msg, "..");
        push_decimal(&mut msg, b as u64);
        push_str_chars(&mut msg, " is reversed");
        assert(msg@ =~= "character range "@ + decimal(a as nat) + ".."@ + decimal(b as nat) + " is reversed"@);
        return Err(DocliError::InvalidTarget { message: string_from_chars(&msg) });
    }
    let total = total_chars(runs);
    if b > total {
        assert(total as int == text_len(rv));
        let mut msg: Vec<char> = Vec::new();
        push_str_chars(&mut msg, "character range ");
        push_decimal(&mut msg, a as u64);
        push_str_chars(&mut msg, "..");
        push_decimal(&mut msg, b as u64);
        push_str_chars(&mut msg, " is outside the paragraph text of ");
        push_decimal(&mut msg, total as u64);
        push_str_chars(&mut msg, " characters");
        assert(msg@ =~= "character range "@ + decimal(a as nat) + ".."@ + decimal(b as nat)
            + " is outside the paragraph text of "@ + decimal(text_len(rv) as nat) + " characters"@);
        return Err(DocliError::InvalidTarget { message: string_from_chars(&msg) });
    }
    let before = cut_runs(runs, 0, Some(a));
    let target = cut_runs(runs, a, Some(b));
    let after = cut_runs(runs, b, None);
    let first = if target.len() > 0 {
        match &target[0].properties {
            Some(p) => Some(p.clone()),
            None => None,
        }
    } else {
        None
    };
    let properties = match first {
        Some(p) => Some(p),
        None => if before.len() > 0 {
            match &before[before.len() - 1].properties {
                Some(p) => Some(p.clone()),
                None => None,
            }
        } else {
            None
        },
    };
    let ghost bv = runs_view(before@);
    let ghost av = runs_view(after@);
    let ghost props = crate::xml::opt_string_view(properties);
    let mut all = before;
    let new_chars = chars_of(new_text);
    if new_chars.len() > 0 {
        all.push(RunFragment { properties, text: String::from_str(new_text) });
    }
    let mut rest = after;
    all.append(&mut rest);
    assert(runs_view(all@) =~= bv + (if new_text@.len() > 0 {
        seq![RunView { props, text: new_text@ }]
    } else {
        Seq::empty()
    }) + av);
    Ok(merge_adjacent_runs(&all))
}

/// Replaces characters `[char_offset, char_end)` of the text of the paragraph
/// at byte `paragraph_byte_offset` of the part at `part_path` with `new_text`.
pub fn replace_text_in_part(
    graph: &mut PartGraph,
    part_path: &str,
    paragraph_byte_offset: usize,
    char_offset: usize,
    char_end: usize,
    new_text: &str,
) -> (r: Result<(), DocliError>)
    requires
        match old(graph).xml(part_path@) {
            Some(x) => valid_utf8(x) ==> replace_slices_ok(x, paragraph_byte_offset as int),
            None => true,
        },
    ensures
        match old(graph).xml(part_path@) {
            None => err_pair(r) == Some((ErrorCode::InvalidDocx, "part not found: "@ + part_path@))
                && forall|p: Seq<char>| #[trigger] final(graph).part(p) == old(graph).part(p),
            Some(x) => match replace_outcome(
                x,
                paragraph_byte_offset as int,
                char_offset as int,
                char_end as int,
                new_text@,
            ) {
                Err(e) => err_pair(r) == Some(e) && forall|p: Seq<char>| #[trigger] final(graph).part(p) == old(
                    graph,
                ).part(p),
                Ok(b) => r is Ok && final(graph).xml(part_path@) == Some(b) && forall|p: Seq<char>|
                    p != part_path@ ==> #[trigger] final(graph).part(p) == old(graph).part(p),
            },
        },
{
    let xml = match graph.xml_bytes(part_path) {
        Some(x) => x,
        None => {
            return Err(
                DocliError::InvalidDocx { message: concat_message("part not found: ", &chars_of(part_path)) },
            );
        },
    };
    match utf8_str(xml) {
        Some(_) => {},
        None => {
            let e = utf8_error_message(xml);
            return Err(DocliError::InvalidDocx { message: concat_message("invalid UTF-8: ", &chars_of(e.as_str())) });
        },
    }
    let para_start = match find_paragraph_start(xml, paragraph_byte_offset) {
        Ok(s) => s,
        Err(e) => {
            return Err(e);
        },
    };
    let para_end = match find_paragraph_end(xml, para_start) {
        Ok(e) => e,
        Err(e) => {
            return Err(e);
        },
    };
    let para = slice_subrange(xml, para_start, para_end);
    proof {
        assert(xml@.subrange(para_start as int, para_start + 4)[0] == xml@[para_start as int]);
        lemma_ascii_bounded_slice_valid(xml@, para_start as int, para_end as int);
    }
    let para_text = utf8_str(para).unwrap();
    let runs = match paragraph_runs_of(para, para_text, 0) {
        Ok(r) => r,
        Err(e) => {
            return Err(e);
        },
    };
    let merged = match replace_runs(&runs, char_offset, char_end, new_text) {
        Ok(m) => m,
        Err(e) => {
            return Err(e);
        },
    };
    let new_para = build_paragraph(xml, para_start, para_end, &merged);
    let mut result: Vec<u8> = Vec::new();
    extend_range(&mut result, xml, 0, para_start);
    extend_range(&mut result, new_para.as_slice(), 0, new_para.len());
    extend_range(&mut result, xml, para_end, xml.len());
    assert(new_para@.subrange(0, new_para@.len() as int) =~= new_para@);
    graph.set_xml(part_path, result);
    Ok(())
}

} // verus!
