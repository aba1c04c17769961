//! A flat model of a parsed XML document.
//!
//! Parsing is done by `roxmltree`; its tree is handed to the library as the
//! list of its nodes in document order (the order of `Document::descendants`,
//! which is also the order of node ids), each with the position of its parent.
//! The descendants of a node are the nodes that follow it and whose chain of
//! parents reaches it.

use roxmltree::NodeId;
use vstd::prelude::*;

use crate::bytes::str_eq;

verus! {

/// One attribute: local name, namespace URI, value.
pub struct XmlAttr {
    pub name: String,
    pub namespace: Option<String>,
    pub value: String,
}

/// One node of the tree.
pub struct XmlNode {
    pub is_element: bool,
    pub is_text: bool,
    /// Local name of an element; empty for other nodes.
    pub name: String,
    pub namespace: Option<String>,
    /// Position of the parent in the node list.
    pub parent: Option<usize>,
    /// Byte range of the node in the source text.
    pub start: usize,
    pub end: usize,
    /// For an element, the text of its first child when that child is text;
    /// for a text or comment node, its text.
    pub text: Option<String>,
    pub attrs: Vec<XmlAttr>,
}

/// A parsed document: its nodes (the root first) and the namespaces in scope
/// at its root element.
pub struct XmlDoc {
    pub nodes: Vec<XmlNode>,
    pub root_namespaces: Vec<(Option<String>, String)>,
}

pub struct AttrView {
    pub name: Seq<char>,
    pub namespace: Option<Seq<char>>,
    pub value: Seq<char>,
}

pub struct NodeView {
    pub is_element: bool,
    pub is_text: bool,
    pub name: Seq<char>,
    pub namespace: Option<Seq<char>>,
    pub parent: Option<usize>,
    pub start: usize,
    pub end: usize,
    pub text: Option<Seq<char>>,
    pub attrs: Seq<AttrView>,
}

pub struct DocView {
    pub nodes: Seq<NodeView>,
    pub root_namespaces: Seq<(Option<Seq<char>>, Seq<char>)>,
}

pub open spec fn opt_string_view(o: Option<String>) -> Option<Seq<char>> {
    match o {
        Some(s) => Some(s@),
        None => None,
    }
}

impl View for XmlAttr {
    type V = AttrView;

    open spec fn view(&self) -> AttrView {
        AttrView { name: self.name@, namespace: opt_string_view(self.namespace), value: self.value@ }
    }
}

impl View for XmlNode {
    type V = NodeView;

    open spec fn view(&self) -> NodeView {
        NodeView {
            is_element: self.is_element,
            is_text: self.is_text,
            name: self.name@,
            namespace: opt_string_view(self.namespace),
            parent: self.parent,
            start: self.start,
            end: self.end,
            text: opt_string_view(self.text),
            attrs: self.attrs@.map_values(|a: XmlAttr| a@),
        }
    }
}

impl View for XmlDoc {
    type V = DocView;

    open spec fn view(&self) -> DocView {
        DocView {
            nodes: self.nodes@.map_values(|n: XmlNode| n@),
            root_namespaces: self.root_namespaces@.map_values(
                |p: (Option<String>, String)| (opt_string_view(p.0), p.1@),
            ),
        }
    }
}

/// What `roxmltree::Document::parse` gives for `text`: the document, or the
/// text of its error.
pub uninterp spec fn roxml_document(text: Seq<char>) -> Result<DocView, Seq<char>>;

#[verifier::external_type_specification]
#[verifier::external_body]
pub struct ExRoxDocument<'input>(roxmltree::Document<'input>);

/// What a parsed `roxmltree::Document` holds: its nodes in document order
/// (the order of `descendants()` from the root, which is the order of node
/// ids) and the namespaces declared on its root element.
pub uninterp spec fn rox_content(d: roxmltree::Document) -> DocView;

/// Parses `text` with `roxmltree::Document::parse`.
#[verifier::external_body]
fn rox_parse(text: &str) -> (r: Result<roxmltree::Document<'_>, String>)
    ensures
        match roxml_document(text@) {
            Ok(v) => r matches Ok(d) && rox_content(d) == v,
            Err(e) => r matches Err(s) && s@ == e,
        },
{
    roxmltree::Document::parse(text).map_err(|e| e.to_string())
}

/// The number of nodes of `d`, counted with `descendants()`. A document
/// holds at most `u32::MAX` nodes (the parser's default node limit).
#[verifier::external_body]
fn rox_node_count(d: &roxmltree::Document) -> (n: usize)
    ensures
        n == rox_content(*d).nodes.len(),
        n <= u32::MAX,
{
    d.descendants().count()
}

/// The model of node `i` of `d`, read with `Document::get_node` and the
/// node's accessors.
#[verifier::external_body]
fn rox_node(d: &roxmltree::Document, i: usize) -> (r: XmlNode)
    requires
        i < rox_content(*d).nodes.len(),
        i < u32::MAX,
    ensures
        r@ == rox_content(*d).nodes[i as int],
{
    let n = d.get_node(NodeId::new(i as u32)).unwrap();
    let s = |v: &str| v.to_string();
    XmlNode {
        is_element: n.is_element(),
        is_text: n.is_text(),
        name: s(n.tag_name().name()),
        namespace: n.tag_name().namespace().map(s),
        parent: n.parent().map(|p| p.id().get_usize()),
        start: n.range().start,
        end: n.range().end,
        text: n.text().map(s),
        attrs: n.attributes().map(|a| XmlAttr { name: s(a.name()), namespace: a.namespace().map(s), value: s(a.value()) }).collect(),
    }
}

/// The namespaces declared on the root element of `d`, read with
/// `Node::namespaces`.
#[verifier::external_body]
fn rox_root_namespaces(d: &roxmltree::Document) -> (r: Vec<(Option<String>, String)>)
    ensures
        r@.map_values(|p: (Option<String>, String)| (opt_string_view(p.0), p.1@)) == rox_content(*d).root_namespaces,
{
    d.root_element().namespaces().map(|n| (n.name().map(|v| v.to_string()), n.uri().to_string())).collect()
}

/// Parses `text` with `roxmltree` and returns its model.
pub fn parse_xml(text: &str) -> (r: Result<XmlDoc, String>)
    ensures
        match r {
            Ok(d) => roxml_document(text@) == Ok::<DocView, Seq<char>>(d@),
            Err(e) => roxml_document(text@) == Err::<DocView, Seq<char>>(e@),
        },
{
    let doc = rox_parse(text)?;
    let count = rox_node_count(&doc);
    let ghost view = rox_content(doc);
    let mut nodes: Vec<XmlNode> = Vec::new();
    let mut i: usize = 0;
    while i < count
        invariant
            count == view.nodes.len(),
            count <= u32::MAX,
            view == rox_content(doc),
            0 <= i <= count,
            nodes@.map_values(|n: XmlNode| n@) == view.nodes.subrange(0, i as int),
        decreases count - i,
    {
        let n = rox_node(&doc, i);
        let ghost before = nodes@;
        nodes.push(n);
        assert(nodes@.map_values(|n: XmlNode| n@) =~= before.map_values(|n: XmlNode| n@).push(n@));
        assert(view.nodes.subrange(0, i + 1) =~= view.nodes.subrange(0, i as int).push(view.nodes[i as int]));
        i = i + 1;
    }
    assert(view.nodes.subrange(0, i as int) =~= view.nodes);
    let root_namespaces = rox_root_namespaces(&doc);
    let r = XmlDoc { nodes, root_namespaces };
    assert(r@.nodes =~= view.nodes);
    assert(r@ == view);
    Ok(r)
}

/// An element with local name `name`.
pub open spec fn has_tag(n: NodeView, name: Seq<char>) -> bool {
    n.is_element && n.name == name
}

/// The value of the first attribute of `n` with local name `name`.
pub open spec fn attr_value(attrs: Seq<AttrView>, name: Seq<char>) -> Option<Seq<char>>
    decreases attrs.len(),
{
    if attrs.len() == 0 {
        None
    } else if attrs[0].name == name {
        Some(attrs[0].value)
    } else {
        attr_value(attrs.drop_first(), name)
    }
}

pub open spec fn attr(n: NodeView, name: Seq<char>) -> Option<Seq<char>> {
    attr_value(n.attrs, name)
}

/// `n` has an attribute with local name `name`.
pub open spec fn has_attr(n: NodeView, name: Seq<char>) -> bool {
    attr(n, name) is Some
}

/// The parent of node `i`, when it precedes `i`.
pub open spec fn parent_of(nodes: Seq<NodeView>, i: int) -> Option<int> {
    if 0 <= i < nodes.len() {
        match nodes[i].parent {
            Some(p) => if p < i {
                Some(p as int)
            } else {
                None
            },
            None => None,
        }
    } else {
        None
    }
}

/// Some proper ancestor of node `i` is an element named `name`.
pub open spec fn has_ancestor_tag(nodes: Seq<NodeView>, i: int, name: Seq<char>) -> bool
    decreases i,
{
    match parent_of(nodes, i) {
        Some(p) => has_tag(nodes[p], name) || has_ancestor_tag(nodes, p, name),
        None => false,
    }
}

/// Node `k` lies strictly below node `i`.
pub open spec fn descends(nodes: Seq<NodeView>, k: int, i: int) -> bool
    decreases k,
{
    match parent_of(nodes, k) {
        Some(p) => p == i || (p > i && descends(nodes, p, i)),
        None => false,
    }
}

/// The end of the run of descendants that follows node `i`, searching from `k`.
pub open spec fn subtree_end_from(nodes: Seq<NodeView>, i: int, k: int) -> int
    decreases nodes.len() - k,
{
    if k < nodes.len() && k > i && descends(nodes, k, i) {
        subtree_end_from(nodes, i, k + 1)
    } else {
        k
    }
}

/// The descendants of node `i` are the nodes `i + 1 .. subtree_end(nodes, i)`.
pub open spec fn subtree_end(nodes: Seq<NodeView>, i: int) -> int {
    subtree_end_from(nodes, i, i + 1)
}

/// The search for the end of a subtree never goes back.
pub proof fn lemma_subtree_end_from_grows(nodes: Seq<NodeView>, i: int, k: int)
    ensures
        subtree_end_from(nodes, i, k) >= k,
    decreases nodes.len() - k,
{
    if k < nodes.len() && k > i && descends(nodes, k, i) {
        lemma_subtree_end_from_grows(nodes, i, k + 1);
    }
}

/// The value of the first attribute named `name`.
pub fn find_attr<'a>(attrs: &'a Vec<XmlAttr>, name: &str) -> (r: Option<&'a String>)
    ensures
        match r {
            Some(v) => attr_value(attrs@.map_values(|a: XmlAttr| a@), name@) == Some(v@),
            None => attr_value(attrs@.map_values(|a: XmlAttr| a@), name@) is None,
        },
{
    let ghost view = attrs@.map_values(|a: XmlAttr| a@);
    assert(view.subrange(0, view.len() as int) =~= view);
    let mut i: usize = 0;
    while i < attrs.len()
        invariant
            0 <= i <= attrs.len(),
            view == attrs@.map_values(|a: XmlAttr| a@),
            attr_value(view, name@) == attr_value(view.subrange(i as int, view.len() as int), name@),
        decreases attrs.len() - i,
    {
        let ghost rest = view.subrange(i as int, view.len() as int);
        assert(rest[0] == attrs@[i as int]@);
        assert(rest.drop_first() =~= view.subrange(i + 1, view.len() as int));
        if str_eq(attrs[i].name.as_str(), name) {
            return Some(&attrs[i].value);
        }
        i = i + 1;
    }
    None
}

/// Whether node `n` is an element named `name`.
pub fn node_has_tag(n: &XmlNode, name: &str) -> (r: bool)
    ensures
        r == has_tag(n@, name@),
{
    n.is_element && str_eq(n.name.as_str(), name)
}

/// Whether node `i` lies inside an element named `name`.
pub fn inside_tag(nodes: &Vec<XmlNode>, i: usize, name: &str) -> (r: bool)
    requires
        i < nodes.len(),
    ensures
        r == has_ancestor_tag(nodes@.map_values(|n: XmlNode| n@), i as int, name@),
{
    let ghost view = nodes@.map_values(|n: XmlNode| n@);
    let mut cur = i;
    loop
        invariant
            cur < nodes.len(),
            view == nodes@.map_values(|n: XmlNode| n@),
            has_ancestor_tag(view, i as int, name@) == has_ancestor_tag(view, cur as int, name@),
        decreases cur,
    {
        match nodes[cur].parent {
            Some(p) => {
                if p >= cur {
                    return false;
                }
                if node_has_tag(&nodes[p], name) {
                    return true;
                }
                cur = p;
            },
            None => {
                return false;
            },
        }
    }
}

/// Whether node `k` lies strictly below node `i`.
pub fn node_descends(nodes: &Vec<XmlNode>, k: usize, i: usize) -> (r: bool)
    requires
        k < nodes.len(),
    ensures
        r == descends(nodes@.map_values(|n: XmlNode| n@), k as int, i as int),
{
    let ghost view = nodes@.map_values(|n: XmlNode| n@);
    let mut cur = k;
    loop
        invariant
            cur < nodes.len(),
            view == nodes@.map_values(|n: XmlNode| n@),
            descends(view, k as int, i as int) == descends(view, cur as int, i as int),
        decreases cur,
    {
        match nodes[cur].parent {
            Some(p) => {
                if p >= cur {
                    return false;
                }
                if p == i {
                    return true;
                }
                if p < i {
                    return false;
                }
                cur = p;
            },
            None => {
                return false;
            },
        }
    }
}

/// The end of the run of descendants that follows node `i`.
pub fn node_subtree_end(nodes: &Vec<XmlNode>, i: usize) -> (r: usize)
    requires
        i < nodes.len(),
    ensures
        r == subtree_end(nodes@.map_values(|n: XmlNode| n@), i as int),
        i < r <= nodes.len(),
{
    let ghost view = nodes@.map_values(|n: XmlNode| n@);
    let mut k = i + 1;
    while k < nodes.len() && node_descends(nodes, k, i)
        invariant
            i < k <= nodes.len(),
            view == nodes@.map_values(|n: XmlNode| n@),
            subtree_end(view, i as int) == subtree_end_from(view, i as int, k as int),
        decreases nodes.len() - k,
    {
        k = k + 1;
    }
    k
}

} // verus!

verus! {

pub open spec fn nodes_view(v: Seq<XmlNode>) -> Seq<NodeView> {
    v.map_values(|n: XmlNode| n@)
}

/// The concatenated text of the elements named `name` among nodes `from .. to`.
pub open spec fn tag_text_in(nodes: Seq<NodeView>, from: int, to: int, name: Seq<char>) -> Seq<char>
    decreases to - from,
{
    if to <= from {
        Seq::empty()
    } else {
        tag_text_in(nodes, from, to - 1, name) + if has_tag(nodes[to - 1], name) {
            match nodes[to - 1].text {
                Some(t) => t,
                None => Seq::empty(),
            }
        } else {
            Seq::empty()
        }
    }
}

/// The first element named `name` among nodes `from .. to`.
pub open spec fn first_tag_in(nodes: Seq<NodeView>, from: int, to: int, name: Seq<char>) -> Option<int>
    decreases to - from,
{
    if to <= from {
        None
    } else if has_tag(nodes[from], name) {
        Some(from)
    } else {
        first_tag_in(nodes, from + 1, to, name)
    }
}

/// Number of children of node `i` among nodes `from .. to` that are elements named `name`.
pub open spec fn child_count_in(nodes: Seq<NodeView>, i: int, from: int, to: int, name: Seq<char>) -> nat
    decreases to - from,
{
    if to <= from {
        0
    } else {
        child_count_in(nodes, i, from, to - 1, name) + if parent_of(nodes, to - 1) == Some(i)
            && has_tag(nodes[to - 1], name) {
            1nat
        } else {
            0nat
        }
    }
}

/// Concatenates the text of the elements named `name` among nodes `from .. to`.
pub fn tag_text(nodes: &Vec<XmlNode>, from: usize, to: usize, name: &str) -> (r: Vec<char>)
    requires
        from <= to <= nodes.len(),
    ensures
        r@ == tag_text_in(nodes_view(nodes@), from as int, to as int, name@),
{
    let mut out: Vec<char> = Vec::new();
    let mut k = from;
    while k < to
        invariant
            from <= k <= to <= nodes.len(),
            out@ == tag_text_in(nodes_view(nodes@), from as int, k as int, name@),
        decreases to - k,
    {
        if node_has_tag(&nodes[k], name) {
            match &nodes[k].text {
                Some(t) => {
                    let cs = crate::text::chars_of(t.as_str());
                    crate::text::push_all_chars(&mut out, &cs);
                },
                None => {},
            }
        }
        k = k + 1;
        assert(out@ =~= tag_text_in(nodes_view(nodes@), from as int, k as int, name@));
    }
    out
}

/// The first element named `name` among nodes `from .. to`.
pub fn first_tag(nodes: &Vec<XmlNode>, from: usize, to: usize, name: &str) -> (r: Option<usize>)
    requires
        from <= to <= nodes.len(),
    ensures
        match r {
            Some(k) => first_tag_in(nodes_view(nodes@), from as int, to as int, name@) == Some(k as int)
                && from <= k < to,
            None => first_tag_in(nodes_view(nodes@), from as int, to as int, name@) is None,
        },
{
    let mut k = from;
    while k < to
        invariant
            from <= k <= to <= nodes.len(),
            first_tag_in(nodes_view(nodes@), from as int, to as int, name@) == first_tag_in(
                nodes_view(nodes@),
                k as int,
                to as int,
                name@,
            ),
        decreases to - k,
    {
        if node_has_tag(&nodes[k], name) {
            return Some(k);
        }
        k = k + 1;
    }
    None
}

/// Counts the children of node `i` among nodes `from .. to` that are elements named `name`.
pub fn child_count(nodes: &Vec<XmlNode>, i: usize, from: usize, to: usize, name: &str) -> (r: usize)
    requires
        from <= to <= nodes.len(),
    ensures
        r == child_count_in(nodes_view(nodes@), i as int, from as int, to as int, name@),
{
    let mut count: usize = 0;
    let mut k = from;
    while k < to
        invariant
            from <= k <= to <= nodes.len(),
            count == child_count_in(nodes_view(nodes@), i as int, from as int, k as int, name@),
            count <= k - from,
        decreases to - k,
    {
        let is_child = match nodes[k].parent {
            Some(p) => p == i && p < k,
            None => false,
        };
        if is_child && node_has_tag(&nodes[k], name) {
            count = count + 1;
        }
        k = k + 1;
    }
    count
}

} // verus!
