//! Working with raw document XML: an indented rendering of a part and a
//! search for elements by name.

use vstd::prelude::*;
use vstd::utf8::{decode_utf8, encode_utf8, valid_utf8};

use crate::bytes::{extend_range, str_eq, utf8_error_message, utf8_error_text, utf8_str};
use crate::chars::{find_chars, first_occurrence};
use crate::error::{DocliError, ErrorCode};
use crate::markup::chars_utf8;
use crate::package::Package;
use crate::text::{chars_of, push_all_chars, push_str_chars, string_from_chars, trim, trim_chars};
use crate::xml::{
    lemma_subtree_end_from_grows, node_subtree_end, nodes_view, opt_string_view, parse_xml, roxml_document,
    subtree_end, subtree_end_from, AttrView, DocView, NodeView, XmlAttr, XmlDoc, XmlNode,
};

verus! {

pub type NamespacesView = Seq<(Option<Seq<char>>, Seq<char>)>;

/// The name of the first root namespace whose URI is `uri`.
pub open spec fn first_uri_match(root_ns: NamespacesView, uri: Seq<char>) -> Option<Seq<char>>
    decreases root_ns.len(),
{
    if root_ns.len() == 0 {
        None
    } else if root_ns[0].1 == uri {
        root_ns[0].0
    } else {
        first_uri_match(root_ns.drop_first(), uri)
    }
}

/// The element's name with the prefix its namespace has at the root.
pub open spec fn qualified_name(n: NodeView, root_ns: NamespacesView) -> Seq<char> {
    (match n.namespace {
        Some(u) => match first_uri_match(root_ns, u) {
            Some(p) => p + ":"@,
            None => Seq::empty(),
        },
        None => Seq::empty(),
    }) + n.name
}

/// The attributes as ` name="value"`, local names and unescaped values.
pub open spec fn attrs_markup(attrs: Seq<AttrView>) -> Seq<char>
    decreases attrs.len(),
{
    if attrs.len() == 0 {
        Seq::empty()
    } else {
        attrs_markup(attrs.drop_last()) + " "@ + attrs.last().name + "=\""@ + attrs.last().value + "\""@
    }
}

/// Two spaces per level.
pub open spec fn indent(depth: nat) -> Seq<char>
    decreases depth,
{
    if depth == 0 {
        Seq::empty()
    } else {
        indent((depth - 1) as nat) + "  "@
    }
}

pub open spec fn text_of(n: NodeView) -> Seq<char> {
    match n.text {
        Some(t) => t,
        None => Seq::empty(),
    }
}

/// Where the subtree of node `k` ends, within `to`.
pub open spec fn next_sibling(nodes: Seq<NodeView>, k: int, to: int) -> int {
    let e = subtree_end(nodes, k);
    if e < to {
        e
    } else {
        to
    }
}

/// The rendering of the nodes `from .. to`, sibling after sibling.
pub open spec fn walk(nodes: Seq<NodeView>, root_ns: NamespacesView, from: int, to: int, depth: nat) -> Seq<char>
    decreases to - from, 1int,
{
    if from < 0 || from >= to || to > nodes.len() {
        Seq::empty()
    } else {
        proof {
            lemma_subtree_end_from_grows(nodes, from, from + 1);
        }
        node_markup(nodes, root_ns, from, to, depth) + walk(
            nodes,
            root_ns,
            next_sibling(nodes, from, to),
            to,
            depth,
        )
    }
}

/// The start of an element's rendering: indentation, `<`, name, attributes.
pub open spec fn open_tag(n: NodeView, root_ns: NamespacesView, depth: nat) -> Seq<char> {
    indent(depth) + "<"@ + qualified_name(n, root_ns) + attrs_markup(n.attrs)
}

/// An element's end tag on the end of its line.
pub open spec fn close_tag(n: NodeView, root_ns: NamespacesView) -> Seq<char> {
    "</"@ + qualified_name(n, root_ns) + ">\n"@
}

/// A text node's line: its trimmed text, when anything is left.
pub open spec fn text_line(n: NodeView, depth: nat) -> Seq<char> {
    if trim(text_of(n)).len() > 0 {
        indent(depth) + trim(text_of(n)) + "\n"@
    } else {
        Seq::empty()
    }
}

/// The rendering of node `k`: an element with its attributes and, indented
/// one level further, its children (a lone text child on the same line); a
/// text node trimmed, when anything is left; nothing for other nodes.
pub open spec fn node_markup(nodes: Seq<NodeView>, root_ns: NamespacesView, k: int, to: int, depth: nat) -> Seq<char>
    decreases to - k, 0int,
{
    if k < 0 || k >= to || to > nodes.len() {
        Seq::empty()
    } else {
        let n = nodes[k];
        let e = next_sibling(nodes, k, to);
        if n.is_element {
            open_tag(n, root_ns, depth) + if e <= k + 1 {
                "/>\n"@
            } else if e == k + 2 && nodes[k + 1].is_text {
                ">"@ + text_of(nodes[k + 1]) + close_tag(n, root_ns)
            } else {
                ">\n"@ + walk(nodes, root_ns, k + 1, e, depth + 1) + indent(depth) + close_tag(n, root_ns)
            }
        } else if n.is_text {
            text_line(n, depth)
        } else {
            Seq::empty()
        }
    }
}

/// The indented rendering of a parsed document: its declaration, when the
/// text has one, on a line of its own, then its tree.
pub open spec fn pretty_text(text: Seq<char>, d: DocView) -> Seq<char> {
    (match first_occurrence(text, "?>"@) {
        Some(i) => text.subrange(0, i + 2) + "\n"@,
        None => Seq::empty(),
    }) + walk(d.nodes, d.root_namespaces, 1, d.nodes.len() as int, 0)
}

/// What `pretty_print_xml` gives: the rendering, or the bytes unchanged when
/// they are not UTF-8 or do not parse.
pub open spec fn pretty_outcome(bytes: Seq<u8>) -> Seq<u8> {
    if !valid_utf8(bytes) {
        bytes
    } else {
        match roxml_document(decode_utf8(bytes)) {
            Err(_) => bytes,
            Ok(d) => encode_utf8(pretty_text(decode_utf8(bytes), d)),
        }
    }
}

pub open spec fn namespaces_view(v: Seq<(Option<String>, String)>) -> NamespacesView {
    v.map_values(|p: (Option<String>, String)| (opt_string_view(p.0), p.1@))
}

/// The prefix of the first root namespace whose URI is `uri`.
fn namespace_prefix<'a>(root_ns: &'a Vec<(Option<String>, String)>, uri: &str) -> (r: Option<&'a String>)
    ensures
        opt_string_view(match r {
            Some(s) => Some(*s),
            None => None,
        }) == first_uri_match(namespaces_view(root_ns@), uri@),
{
    let ghost nv = namespaces_view(root_ns@);
    let mut i: usize = 0;
    assert(nv.subrange(0, nv.len() as int) =~= nv);
    while i < root_ns.len()
        invariant
            0 <= i <= root_ns.len(),
            nv == namespaces_view(root_ns@),
            first_uri_match(nv, uri@) == first_uri_match(nv.subrange(i as int, nv.len() as int), uri@),
        decreases root_ns.len() - i,
    {
        let ghost rest = nv.subrange(i as int, nv.len() as int);
        assert(rest[0] == nv[i as int]);
        assert(rest.drop_first() =~= nv.subrange(i + 1, nv.len() as int));
        if str_eq(root_ns[i].1.as_str(), uri) {
            return match &root_ns[i].0 {
                Some(p) => Some(p),
                None => None,
            };
        }
        i = i + 1;
    }
    None
}

/// Appends the qualified name of element `n`.
fn push_qualified(out: &mut Vec<char>, n: &XmlNode, root_ns: &Vec<(Option<String>, String)>)
    ensures
        final(out)@ == old(out)@ + qualified_name(n@, namespaces_view(root_ns@)),
{
    let ghost start = out@;
    if let Some(u) = &n.namespace {
        if let Some(p) = namespace_prefix(root_ns, u.as_str()) {
            push_str_chars(out, p.as_str());
            push_str_chars(out, ":");
        }
    }
    push_str_chars(out, n.name.as_str());
    assert(out@ =~= start + qualified_name(n@, namespaces_view(root_ns@)));
}

/// Appends the attributes of `n`.
fn push_attrs(out: &mut Vec<char>, attrs: &Vec<XmlAttr>)
    ensures
        final(out)@ == old(out)@ + attrs_markup(attrs@.map_values(|a: XmlAttr| a@)),
{
    let ghost av = attrs@.map_values(|a: XmlAttr| a@);
    let ghost start = out@;
    let mut i: usize = 0;
    assert(av.subrange(0, 0) =~= Seq::<AttrView>::empty());
    while i < attrs.len()
        invariant
            0 <= i <= attrs.len(),
            av == attrs@.map_values(|a: XmlAttr| a@),
            out@ == start + attrs_markup(av.subrange(0, i as int)),
        decreases attrs.len() - i,
    {
        let ghost before = out@;
        push_str_chars(out, " ");
        push_str_chars(out, attrs[i].name.as_str());
        push_str_chars(out, "=\"");
        push_str_chars(out, attrs[i].value.as_str());
        push_str_chars(out, "\"");
        assert(av.subrange(0, i + 1).drop_last() =~= av.subrange(0, i as int));
        assert(av.subrange(0, i + 1).last() == attrs@[i as int]@);
        assert(out@ =~= start + attrs_markup(av.subrange(0, i + 1)));
        i = i + 1;
    }
    assert(av.subrange(0, i as int) =~= av);
}

/// Appends `depth` levels of indentation.
fn push_indent(out: &mut Vec<char>, depth: usize)
    ensures
        final(out)@ == old(out)@ + indent(depth as nat),
{
    let ghost start = out@;
    let mut d: usize = 0;
    while d < depth
        invariant
            0 <= d <= depth,
            out@ == start + indent(d as nat),
        decreases depth - d,
    {
        push_str_chars(out, "  ");
        d = d + 1;
        assert(out@ =~= start + indent(d as nat));
    }
}

/// Where the subtree of node `k` ends, within `to`.
fn sibling_after(nodes: &Vec<XmlNode>, k: usize, to: usize) -> (e: usize)
    requires
        k < to <= nodes.len(),
    ensures
        e as int == next_sibling(nodes_view(nodes@), k as int, to as int),
        k < e <= to,
{
    let e = node_subtree_end(nodes, k);
    if e < to {
        e
    } else {
        to
    }
}

/// Appends the start of element `n`'s rendering.
fn push_open_tag(out: &mut Vec<char>, n: &XmlNode, root_ns: &Vec<(Option<String>, String)>, depth: usize)
    ensures
        final(out)@ == old(out)@ + open_tag(n@, namespaces_view(root_ns@), depth as nat),
{
    let ghost start = out@;
    push_indent(out, depth);
    push_str_chars(out, "<");
    push_qualified(out, n, root_ns);
    push_attrs(out, &n.attrs);
    assert(out@ =~= start + open_tag(n@, namespaces_view(root_ns@), depth as nat));
}

/// Appends element `n`'s end tag.
fn push_close_tag(out: &mut Vec<char>, n: &XmlNode, root_ns: &Vec<(Option<String>, String)>)
    ensures
        final(out)@ == old(out)@ + close_tag(n@, namespaces_view(root_ns@)),
{
    let ghost start = out@;
    push_str_chars(out, "</");
    push_qualified(out, n, root_ns);
    push_str_chars(out, ">\n");
    assert(out@ =~= start + close_tag(n@, namespaces_view(root_ns@)));
}

/// Appends the line of text node `n`.
fn push_text_line(out: &mut Vec<char>, n: &XmlNode, depth: usize)
    ensures
        final(out)@ == old(out)@ + text_line(n@, depth as nat),
{
    let ghost start = out@;
    let t = match &n.text {
        Some(t) => chars_of(t.as_str()),
        None => Vec::new(),
    };
    assert(t@ == text_of(n@));
    let trimmed = trim_chars(&t);
    if trimmed.len() > 0 {
        push_indent(out, depth);
        push_all_chars(out, &trimmed);
        push_str_chars(out, "\n");
    }
    assert(out@ =~= start + text_line(n@, depth as nat));
}

/// Appends the rendering of node `k`.
#[verifier::rlimit(30)]
fn push_node_markup(
    nodes: &Vec<XmlNode>,
    root_ns: &Vec<(Option<String>, String)>,
    k: usize,
    to: usize,
    depth: usize,
    out: &mut Vec<char>,
)
    requires
        k < to <= nodes.len(),
        depth + (to - k) <= usize::MAX,
    ensures
        final(out)@ == old(out)@ + node_markup(
            nodes_view(nodes@),
            namespaces_view(root_ns@),
            k as int,
            to as int,
            depth as nat,
        ),
    decreases to - k, 0int,
{
    let ghost nv = nodes_view(nodes@);
    let ghost ns = namespaces_view(root_ns@);
    let ghost before = out@;
    let e = sibling_after(nodes, k, to);
    let n = &nodes[k];
    assert(nv[k as int] == n@);
    if n.is_element {
        push_open_tag(out, n, root_ns, depth);
        let ghost mid = out@;
        if e <= k + 1 {
            push_str_chars(out, "/>\n");
            assert(out@ =~= before + node_markup(nv, ns, k as int, to as int, depth as nat));
        } else if e == k + 2 && nodes[k + 1].is_text {
            assert(nv[k + 1] == nodes@[k + 1]@);
            push_str_chars(out, ">");
            if let Some(t) = &nodes[k + 1].text {
                push_str_chars(out, t.as_str());
            }
            push_close_tag(out, n, root_ns);
            assert(out@ =~= before + node_markup(nv, ns, k as int, to as int, depth as nat));
        } else {
            push_str_chars(out, ">\n");
            walk_node(nodes, root_ns, k + 1, e, depth + 1, out);
            push_indent(out, depth);
            push_close_tag(out, n, root_ns);
            assert(out@ =~= before + node_markup(nv, ns, k as int, to as int, depth as nat));
        }
    } else if n.is_text {
        push_text_line(out, n, depth);
        assert(out@ =~= before + node_markup(nv, ns, k as int, to as int, depth as nat));
    } else {
        assert(out@ =~= before + node_markup(nv, ns, k as int, to as int, depth as nat));
    }
}

/// Appends the rendering of nodes `from .. to`, sibling after sibling.
fn walk_node(
    nodes: &Vec<XmlNode>,
    root_ns: &Vec<(Option<String>, String)>,
    from: usize,
    to: usize,
    depth: usize,
    out: &mut Vec<char>,
)
    requires
        from <= to <= nodes.len(),
        depth + (to - from) <= usize::MAX,
    ensures
        final(out)@ == old(out)@ + walk(
            nodes_view(nodes@),
            namespaces_view(root_ns@),
            from as int,
            to as int,
            depth as nat,
        ),
    decreases to - from, 1int,
{
    let ghost nv = nodes_view(nodes@);
    let ghost ns = namespaces_view(root_ns@);
    let ghost start = out@;
    let mut k = from;
    while k < to
        invariant
            from <= k <= to <= nodes.len(),
            depth + (to - from) <= usize::MAX,
            nv == nodes_view(nodes@),
            ns == namespaces_view(root_ns@),
            start + walk(nv, ns, from as int, to as int, depth as nat) == out@ + walk(
                nv,
                ns,
                k as int,
                to as int,
                depth as nat,
            ),
        decreases to - k,
    {
        let ghost before = out@;
        let e = sibling_after(nodes, k, to);
        push_node_markup(nodes, root_ns, k, to, depth, out);
        let ghost nm = node_markup(nv, ns, k as int, to as int, depth as nat);
        assert(walk(nv, ns, k as int, to as int, depth as nat) == nm + walk(nv, ns, e as int, to as int, depth as nat));
        assert(before + (nm + walk(nv, ns, e as int, to as int, depth as nat)) =~= out@ + walk(
            nv,
            ns,
            e as int,
            to as int,
            depth as nat,
        ));
        k = e;
    }
    assert(walk(nv, ns, k as int, to as int, depth as nat) == Seq::<char>::empty());
    assert(out@ + Seq::<char>::empty() =~= out@);
}

/// An indented rendering of an XML part: its declaration, then one element
/// or trimmed text per line. Bytes that are not UTF-8 or do not parse are
/// returned as they are.
pub fn pretty_print_xml(bytes: &[u8]) -> (r: Vec<u8>)
    ensures
        r@ == pretty_outcome(bytes@),
{
    let mut copy: Vec<u8> = Vec::new();
    extend_range(&mut copy, bytes, 0, bytes.len());
    assert(bytes@.subrange(0, bytes@.len() as int) =~= bytes@);
    let text = match utf8_str(bytes) {
        Some(t) => t,
        None => {
            return copy;
        },
    };
    let doc = match parse_xml(text) {
        Ok(d) => d,
        Err(_) => {
            return copy;
        },
    };
    let ghost nv = nodes_view(doc.nodes@);
    assert(doc@.nodes == nv);
    assert(doc@.root_namespaces == namespaces_view(doc.root_namespaces@));
    let cs = chars_of(text);
    let mut out: Vec<char> = Vec::new();
    let mut marker: Vec<char> = Vec::new();
    marker.push('?');
    marker.push('>');
    proof {
        reveal_strlit("?>");
    }
    assert(marker@ =~= "?>"@);
    if let Some(pi) = find_chars(&cs, &marker) {
        let mut k: usize = 0;
        while k < pi + 2
            invariant
                0 <= k <= pi + 2 <= cs.len(),
                out@ == cs@.subrange(0, k as int),
            decreases pi + 2 - k,
        {
            out.push(cs[k]);
            k = k + 1;
            assert(out@ =~= cs@.subrange(0, k as int));
        }
        push_str_chars(&mut out, "\n");
    }
    let ghost head = out@;
    if doc.nodes.len() > 1 {
        walk_node(&doc.nodes, &doc.root_namespaces, 1, doc.nodes.len(), 0, &mut out);
    }
    assert(out@ =~= pretty_text(decode_utf8(bytes@), doc@));
    chars_utf8(&out)
}

/// `s` without its leading `//` pairs.
pub open spec fn strip_double_slashes(s: Seq<char>) -> Seq<char>
    decreases s.len(),
{
    if s.len() >= 2 && s[0] == '/' && s[1] == '/' {
        strip_double_slashes(s.subrange(2, s.len() as int))
    } else {
        s
    }
}

/// The element name an XPath-like query asks for: the query without its
/// leading `//` pairs, then without its leading slashes.
pub open spec fn query_tag(xpath: Seq<char>) -> Seq<char> {
    crate::invariants::strip_slashes(strip_double_slashes(xpath))
}

/// The text of nodes `from .. to`, each node's text in turn.
pub open spec fn texts_in(nodes: Seq<NodeView>, from: int, to: int) -> Seq<char>
    decreases to - from,
{
    if to <= from {
        Seq::empty()
    } else {
        texts_in(nodes, from, to - 1) + text_of(nodes[to - 1])
    }
}

/// One element that a query found: its name, the text of it and its
/// descendants (none when empty) and its attributes.
#[derive(Debug)]
pub struct MatchInfo {
    pub tag: String,
    pub text: Option<String>,
    pub attributes: Vec<AttrInfo>,
}

#[derive(Debug)]
pub struct AttrInfo {
    pub name: String,
    pub value: String,
}

pub struct MatchView {
    pub tag: Seq<char>,
    pub text: Option<Seq<char>>,
    pub attributes: Seq<(Seq<char>, Seq<char>)>,
}

impl View for MatchInfo {
    type V = MatchView;

    open spec fn view(&self) -> MatchView {
        MatchView {
            tag: self.tag@,
            text: opt_string_view(self.text),
            attributes: self.attributes@.map_values(|a: AttrInfo| (a.name@, a.value@)),
        }
    }
}

/// What a query reports of element `k`.
pub open spec fn match_of(nodes: Seq<NodeView>, k: int) -> MatchView {
    let t = texts_in(nodes, k, subtree_end(nodes, k));
    MatchView {
        tag: nodes[k].name,
        text: if t.len() == 0 {
            None
        } else {
            Some(t)
        },
        attributes: nodes[k].attrs.map_values(|a: AttrView| (a.name, a.value)),
    }
}

/// The elements named `tag` among nodes `0 .. n`.
pub open spec fn matches_upto(nodes: Seq<NodeView>, n: int, tag: Seq<char>) -> Seq<MatchView>
    decreases n,
{
    if n <= 0 {
        Seq::empty()
    } else {
        matches_upto(nodes, n - 1, tag) + if nodes[n - 1].is_element && nodes[n - 1].name == tag {
            seq![match_of(nodes, n - 1)]
        } else {
            Seq::empty()
        }
    }
}

/// What querying the main document part of `pkg` for `xpath` gives.
pub open spec fn query_outcome(pkg: &Package, xpath: Seq<char>) -> Result<Seq<MatchView>, (ErrorCode, Seq<char>)> {
    match pkg.xml("word/document.xml"@) {
        None => Err((ErrorCode::InvalidDocx, "missing word/document.xml"@)),
        Some(b) => if !valid_utf8(b) {
            Err((ErrorCode::InvalidDocx, utf8_error_text(b)))
        } else {
            match roxml_document(decode_utf8(b)) {
                Err(e) => Err((ErrorCode::InvalidDocx, e)),
                Ok(d) => Ok(matches_upto(d.nodes, d.nodes.len() as int, query_tag(xpath))),
            }
        },
    }
}

/// The name a query asks for.
fn query_tag_chars(xpath: &str) -> (r: Vec<char>)
    ensures
        r@ == query_tag(xpath@),
{
    let cs = chars_of(xpath);
    let mut i: usize = 0;
    assert(cs@.subrange(0, cs@.len() as int) =~= cs@);
    while cs.len() - i >= 2 && cs[i] == '/' && cs[i + 1] == '/'
        invariant
            0 <= i <= cs.len(),
            strip_double_slashes(cs@) == strip_double_slashes(cs@.subrange(i as int, cs@.len() as int)),
        decreases cs.len() - i,
    {
        assert(cs@.subrange(i as int, cs@.len() as int).subrange(2, cs@.len() - i) =~= cs@.subrange(
            i + 2,
            cs@.len() as int,
        ));
        i = i + 2;
    }
    let mut rest: Vec<char> = Vec::new();
    let mut k = i;
    while k < cs.len()
        invariant
            i <= k <= cs.len(),
            rest@ == cs@.subrange(i as int, k as int),
        decreases cs.len() - k,
    {
        rest.push(cs[k]);
        k = k + 1;
        assert(rest@ =~= cs@.subrange(i as int, k as int));
    }
    assert(strip_double_slashes(rest@) == rest@);
    let mut j: usize = 0;
    assert(rest@.subrange(0, rest@.len() as int) =~= rest@);
    while j < rest.len() && rest[j] == '/'
        invariant
            0 <= j <= rest.len(),
            crate::invariants::strip_slashes(rest@) == crate::invariants::strip_slashes(
                rest@.subrange(j as int, rest@.len() as int),
            ),
        decreases rest.len() - j,
    {
        assert(rest@.subrange(j as int, rest@.len() as int).drop_first() =~= rest@.subrange(
            j + 1,
            rest@.len() as int,
        ));
        j = j + 1;
    }
    let mut out: Vec<char> = Vec::new();
    let mut m = j;
    while m < rest.len()
        invariant
            j <= m <= rest.len(),
            out@ == rest@.subrange(j as int, m as int),
        decreases rest.len() - m,
    {
        out.push(rest[m]);
        m = m + 1;
        assert(out@ =~= rest@.subrange(j as int, m as int));
    }
    assert(out@ =~= rest@.subrange(j as int, rest@.len() as int));
    out
}

/// What the query reports of element `k`.
fn match_info(nodes: &Vec<XmlNode>, k: usize) -> (r: MatchInfo)
    requires
        k < nodes.len(),
    ensures
        r@ == match_of(nodes_view(nodes@), k as int),
{
    let ghost nv = nodes_view(nodes@);
    let end = node_subtree_end(nodes, k);
    let mut text: Vec<char> = Vec::new();
    let mut j = k;
    while j < end
        invariant
            k <= j <= end <= nodes.len(),
            nv == nodes_view(nodes@),
            text@ == texts_in(nv, k as int, j as int),
        decreases end - j,
    {
        assert(nv[j as int] == nodes@[j as int]@);
        if let Some(t) = &nodes[j].text {
            push_str_chars(&mut text, t.as_str());
        }
        j = j + 1;
        assert(text@ =~= texts_in(nv, k as int, j as int));
    }
    let n = &nodes[k];
    assert(nv[k as int] == n@);
    let mut attributes: Vec<AttrInfo> = Vec::new();
    let mut i: usize = 0;
    while i < n.attrs.len()
        invariant
            0 <= i <= n.attrs.len(),
            attributes@.map_values(|a: AttrInfo| (a.name@, a.value@)) == n@.attrs.subrange(0, i as int).map_values(
                |a: AttrView| (a.name, a.value),
            ),
        decreases n.attrs.len() - i,
    {
        let ghost before = attributes@.map_values(|a: AttrInfo| (a.name@, a.value@));
        let info = AttrInfo { name: n.attrs[i].name.clone(), value: n.attrs[i].value.clone() };
        assert(n@.attrs[i as int] == n.attrs@[i as int]@);
        assert((info.name@, info.value@) == (n@.attrs[i as int].name, n@.attrs[i as int].value));
        attributes.push(info);
        assert(attributes@.map_values(|a: AttrInfo| (a.name@, a.value@)) =~= before.push(
            (n@.attrs[i as int].name, n@.attrs[i as int].value),
        ));
        assert(attributes@.map_values(|a: AttrInfo| (a.name@, a.value@)) =~= n@.attrs.subrange(0, i + 1).map_values(
            |a: AttrView| (a.name, a.value),
        ));
        i = i + 1;
    }
    assert(n@.attrs.subrange(0, i as int) =~= n@.attrs);
    MatchInfo {
        tag: n.name.clone(),
        text: if text.len() == 0 {
            None
        } else {
            Some(string_from_chars(&text))
        },
        attributes,
    }
}

/// The elements of the main document part whose name an XPath-like query
/// asks for: the query with its leading slashes removed is matched against
/// element names.
pub fn query_matches(package: &Package, xpath: &str) -> (r: Result<Vec<MatchInfo>, DocliError>)
    ensures
        match query_outcome(package, xpath@) {
            Ok(m) => r matches Ok(v) && v@.map_values(|x: MatchInfo| x@) == m,
            Err(e) => r matches Err(x) && x.view_pair() == e,
        },
{
    let bytes = match package.xml_part("word/document.xml") {
        Some(b) => b,
        None => {
            return Err(DocliError::InvalidDocx { message: String::from_str("missing word/document.xml") });
        },
    };
    let text = match utf8_str(bytes.as_slice()) {
        Some(t) => t,
        None => {
            return Err(DocliError::InvalidDocx { message: utf8_error_message(bytes.as_slice()) });
        },
    };
    let doc = match parse_xml(text) {
        Ok(d) => d,
        Err(e) => {
            return Err(DocliError::InvalidDocx { message: e });
        },
    };
    let ghost nv = nodes_view(doc.nodes@);
    assert(doc@.nodes == nv);
    let tag = query_tag_chars(xpath);
    let tag_string = string_from_chars(&tag);
    let mut out: Vec<MatchInfo> = Vec::new();
    let mut k: usize = 0;
    assert(out@.map_values(|x: MatchInfo| x@) =~= matches_upto(nv, 0, tag@));
    while k < doc.nodes.len()
        invariant
            0 <= k <= doc.nodes.len(),
            nv == nodes_view(doc.nodes@),
            tag_string@ == query_tag(xpath@),
            out@.map_values(|x: MatchInfo| x@) == matches_upto(nv, k as int, tag_string@),
        decreases doc.nodes.len() - k,
    {
        assert(nv[k as int] == doc.nodes@[k as int]@);
        if doc.nodes[k].is_element && str_eq(doc.nodes[k].name.as_str(), tag_string.as_str()) {
            out.push(match_info(&doc.nodes, k));
        }
        k = k + 1;
        assert(out@.map_values(|x: MatchInfo| x@) =~= matches_upto(nv, k as int, tag_string@));
    }
    Ok(out)
}

/// The `ooxml` subcommands.
#[derive(Debug)]
pub enum OoxmlCommand {
    Unpack(UnpackArgs),
    Query(QueryArgs),
    Pack(PackArgs),
}

/// Write the parts of `file` into `dir`, XML parts pretty-printed.
#[derive(Debug)]
pub struct UnpackArgs {
    pub file: String,
    pub dir: String,
}

/// The elements of the main document part of `file` named by `xpath`.
#[derive(Debug)]
pub struct QueryArgs {
    pub file: String,
    pub xpath: String,
}

/// Pack the files under `dir` into the package `output`.
#[derive(Debug)]
pub struct PackArgs {
    pub dir: String,
    pub output: String,
}

} // verus!
