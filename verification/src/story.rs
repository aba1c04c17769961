//! Which part holds each story: the body, the headers and footers the
//! section properties reference, and the notes and comments parts.

use vstd::prelude::*;
use vstd::utf8::{decode_utf8, valid_utf8};

use crate::bytes::{utf8_error_message, utf8_error_text, utf8_str};
use crate::error::{DocliError, ErrorCode};
use crate::index::{parse_relationships, rel_get, rel_lookup, rels_outcome, rels_view, RelsView};
use crate::job::Story;
use crate::package::Package;
use crate::text::{chars_of, push_str_chars, string_from_chars};
use crate::xml::{attr, find_attr, has_tag, node_has_tag, nodes_view, opt_string_view, parse_xml, roxml_document, NodeView, DocView};

verus! {

/// The story a header (or footer) reference of type `t` stands for; no type
/// means `default`.
pub open spec fn reference_story(is_header: bool, t: Option<Seq<char>>) -> Option<Story> {
    let ty = match t {
        Some(v) => v,
        None => "default"@,
    };
    if ty == "default"@ {
        Some(if is_header { Story::HeaderDefault } else { Story::FooterDefault })
    } else if ty == "first"@ {
        Some(if is_header { Story::HeaderFirst } else { Story::FooterFirst })
    } else if ty == "even"@ {
        Some(if is_header { Story::HeaderEven } else { Story::FooterEven })
    } else {
        None
    }
}

/// A relationship target as a path in the package: under `word/`.
pub open spec fn word_path(target: Seq<char>) -> Seq<char> {
    if target.len() >= 5 && target.subrange(0, 5) == "word/"@ {
        target
    } else {
        "word/"@ + target
    }
}

/// The story and part of reference element `n`, when it resolves.
pub open spec fn reference_binding(n: NodeView, rels: RelsView) -> Option<(Story, Seq<char>)> {
    let is_header = has_tag(n, "headerReference"@);
    if !(is_header || has_tag(n, "footerReference"@)) {
        None
    } else {
        match reference_story(is_header, attr(n, "type"@)) {
            None => None,
            Some(story) => match attr(n, "id"@) {
                None => None,
                Some(id) => match rel_lookup(rels, id) {
                    None => None,
                    Some(target) => Some((story, word_path(target))),
                },
            },
        }
    }
}

/// The bindings of the references among nodes `0 .. n`.
pub open spec fn reference_bindings(nodes: Seq<NodeView>, rels: RelsView, n: int) -> Seq<(Story, Seq<char>)>
    decreases n,
{
    if n <= 0 {
        Seq::empty()
    } else {
        reference_bindings(nodes, rels, n - 1) + match reference_binding(nodes[n - 1], rels) {
            Some(b) => seq![b],
            None => Seq::empty(),
        }
    }
}

/// The bindings of a document, in the order they are made; a later binding
/// of a story replaces an earlier one.
pub open spec fn story_bindings(nodes: Seq<NodeView>, rels: RelsView) -> Seq<(Story, Seq<char>)> {
    seq![(Story::Body, "word/document.xml"@)] + reference_bindings(nodes, rels, nodes.len() as int) + seq![
        (Story::Footnotes, "word/footnotes.xml"@),
        (Story::Endnotes, "word/endnotes.xml"@),
        (Story::Comments, "word/comments.xml"@),
    ]
}

/// What reading the story parts of a document gives.
pub open spec fn story_outcome(document_xml: Seq<u8>, rels_xml: Option<Seq<u8>>) -> Result<
    Seq<(Story, Seq<char>)>,
    Seq<char>,
> {
    if !valid_utf8(document_xml) {
        Err(utf8_error_text(document_xml))
    } else {
        match rels_outcome(rels_xml) {
            Err(e) => Err(e),
            Ok(rels) => match roxml_document(decode_utf8(document_xml)) {
                Err(e) => Err(e),
                Ok(d) => Ok(story_bindings(d.nodes, rels)),
            },
        }
    }
}

/// The part of the last binding of `story`.
pub open spec fn last_binding(b: Seq<(Story, Seq<char>)>, story: Story) -> Option<Seq<char>>
    decreases b.len(),
{
    if b.len() == 0 {
        None
    } else if b.last().0 == story {
        Some(b.last().1)
    } else {
        last_binding(b.drop_last(), story)
    }
}

/// A story that no header or footer reference names.
pub open spec fn is_fixed_story(s: Story) -> bool {
    s == Story::Body || s == Story::Footnotes || s == Story::Endnotes || s == Story::Comments
}

proof fn lemma_references_name_no_fixed_story(nodes: Seq<NodeView>, rels: RelsView, n: int, s: Story)
    requires
        is_fixed_story(s),
    ensures
        forall|i: int|
            0 <= i < reference_bindings(nodes, rels, n).len() ==> (#[trigger] reference_bindings(nodes, rels, n)[i]).0
                != s,
    decreases n,
{
    if n > 0 {
        lemma_references_name_no_fixed_story(nodes, rels, n - 1, s);
        let a = reference_bindings(nodes, rels, n - 1);
        let b: Seq<(Story, Seq<char>)> = match reference_binding(nodes[n - 1], rels) {
            Some(x) => seq![x],
            None => Seq::empty(),
        };
        assert forall|i: int| 0 <= i < (a + b).len() implies (#[trigger] (a + b)[i]).0 != s by {
            if i >= a.len() {
                assert((a + b)[i] == b[i - a.len()]);
            } else {
                assert((a + b)[i] == a[i]);
            }
        }
        assert(reference_bindings(nodes, rels, n) == a + b);
    }
}

proof fn lemma_last_binding_skips(a: Seq<(Story, Seq<char>)>, b: Seq<(Story, Seq<char>)>, s: Story)
    requires
        forall|i: int| 0 <= i < b.len() ==> (#[trigger] b[i]).0 != s,
    ensures
        last_binding(a + b, s) == last_binding(a, s),
    decreases b.len(),
{
    if b.len() == 0 {
        assert(a + b =~= a);
    } else {
        assert((a + b).drop_last() =~= a + b.drop_last());
        assert((a + b).last() == b.last());
        assert(b.last() == b[b.len() - 1]);
        lemma_last_binding_skips(a, b.drop_last(), s);
    }
}

/// Whatever the document references, the body is always in
/// `word/document.xml`, and footnotes, endnotes and comments in
/// `word/footnotes.xml`, `word/endnotes.xml` and `word/comments.xml`: header
/// and footer references bind only header and footer stories.
pub proof fn law_fixed_story_parts(nodes: Seq<NodeView>, rels: RelsView)
    ensures
        last_binding(story_bindings(nodes, rels), Story::Body) == Some("word/document.xml"@),
        last_binding(story_bindings(nodes, rels), Story::Footnotes) == Some("word/footnotes.xml"@),
        last_binding(story_bindings(nodes, rels), Story::Endnotes) == Some("word/endnotes.xml"@),
        last_binding(story_bindings(nodes, rels), Story::Comments) == Some("word/comments.xml"@),
{
    let head = seq![(Story::Body, "word/document.xml"@)];
    let refs = reference_bindings(nodes, rels, nodes.len() as int);
    let tail = seq![
        (Story::Footnotes, "word/footnotes.xml"@),
        (Story::Endnotes, "word/endnotes.xml"@),
        (Story::Comments, "word/comments.xml"@),
    ];
    assert(story_bindings(nodes, rels) == head + refs + tail);
    lemma_references_name_no_fixed_story(nodes, rels, nodes.len() as int, Story::Body);
    lemma_last_binding_skips(head, refs, Story::Body);
    assert forall|i: int| 0 <= i < tail.len() implies (#[trigger] tail[i]).0 != Story::Body by {}
    lemma_last_binding_skips(head + refs, tail, Story::Body);
    assert(head.drop_last() =~= Seq::<(Story, Seq<char>)>::empty());
    assert(last_binding(head, Story::Body) == Some("word/document.xml"@));
    let t1 = tail.drop_last();
    let t2 = t1.drop_last();
    assert((head + refs + tail).drop_last() =~= head + refs + t1);
    assert((head + refs + t1).drop_last() =~= head + refs + t2);
    assert((head + refs + tail).last() == (Story::Comments, "word/comments.xml"@));
    assert((head + refs + t1).last() == (Story::Endnotes, "word/endnotes.xml"@));
    assert((head + refs + t2).last() == (Story::Footnotes, "word/footnotes.xml"@));
    assert(last_binding(head + refs + t2, Story::Footnotes) == Some("word/footnotes.xml"@));
    assert(last_binding(head + refs + t1, Story::Footnotes) == last_binding(head + refs + t2, Story::Footnotes));
    assert(last_binding(head + refs + tail, Story::Footnotes) == last_binding(head + refs + t1, Story::Footnotes));
    assert(last_binding(head + refs + t1, Story::Endnotes) == Some("word/endnotes.xml"@));
    assert(last_binding(head + refs + tail, Story::Endnotes) == last_binding(head + refs + t1, Story::Endnotes));
}

/// The part that holds each story.
pub struct StoryPartMap {
    parts: Vec<(Story, String)>,
}

impl StoryPartMap {
    /// The bindings, in the order they were made.
    pub closed spec fn bindings(&self) -> Seq<(Story, Seq<char>)> {
        self.parts@.map_values(|p: (Story, String)| (p.0, p.1@))
    }

    /// The part that holds `story`.
    pub open spec fn part(&self, story: Story) -> Option<Seq<char>> {
        last_binding(self.bindings(), story)
    }

    /// The story parts of a document, found from its main part and the
    /// relationships of that part.
    pub fn from_bytes(document_xml: &[u8], rels_xml: Option<&[u8]>) -> (r: Result<StoryPartMap, DocliError>)
        ensures
            match story_outcome(
                document_xml@,
                match rels_xml {
                    Some(b) => Some(b@),
                    None => None,
                },
            ) {
                Ok(b) => r matches Ok(m) && m.bindings() == b,
                Err(e) => r matches Err(x) && x.view_pair() == (ErrorCode::InvalidDocx, e),
            },
    {
        let text = match utf8_str(document_xml) {
            Some(t) => t,
            None => {
                return Err(DocliError::InvalidDocx { message: utf8_error_message(document_xml) });
            },
        };
        let rels = match parse_relationships(rels_xml) {
            Ok(r) => r,
            Err(e) => {
                return Err(e);
            },
        };
        let doc = match parse_xml(text) {
            Ok(d) => d,
            Err(e) => {
                return Err(DocliError::InvalidDocx { message: e });
            },
        };
        let ghost nv = nodes_view(doc.nodes@);
        let ghost rv = rels_view(rels@);
        assert(doc@.nodes == nv);
        let mut parts: Vec<(Story, String)> = Vec::new();
        parts.push((Story::Body, String::from_str("word/document.xml")));
        let ghost head = seq![(Story::Body, "word/document.xml"@)];
        let mut k: usize = 0;
        assert(parts@.map_values(|p: (Story, String)| (p.0, p.1@)) =~= head + reference_bindings(nv, rv, 0));
        while k < doc.nodes.len()
            invariant
                0 <= k <= doc.nodes.len(),
                nv == nodes_view(doc.nodes@),
                rv == rels_view(rels@),
                parts@.map_values(|p: (Story, String)| (p.0, p.1@)) == head + reference_bindings(nv, rv, k as int),
            decreases doc.nodes.len() - k,
        {
            let ghost before = parts@.map_values(|p: (Story, String)| (p.0, p.1@));
            let n = &doc.nodes[k];
            assert(nv[k as int] == n@);
            match reference_of(n, &rels) {
                Some(b) => {
                    let ghost bv = (b.0, b.1@);
                    parts.push(b);
                    assert(parts@.map_values(|p: (Story, String)| (p.0, p.1@)) =~= before.push(bv));
                    assert(reference_binding(nv[k as int], rv) == Some(bv));
                },
                None => {
                    assert(reference_binding(nv[k as int], rv) is None);
                },
            }
            assert(reference_bindings(nv, rv, k + 1) == reference_bindings(nv, rv, k as int) + match reference_binding(
                nv[k as int],
                rv,
            ) {
                Some(b) => seq![b],
                None => Seq::empty(),
            });
            k = k + 1;
            assert(parts@.map_values(|p: (Story, String)| (p.0, p.1@)) =~= head + reference_bindings(nv, rv, k as int));
        }
        parts.push((Story::Footnotes, String::from_str("word/footnotes.xml")));
        parts.push((Story::Endnotes, String::from_str("word/endnotes.xml")));
        parts.push((Story::Comments, String::from_str("word/comments.xml")));
        let r = StoryPartMap { parts };
        assert(r.bindings() =~= story_bindings(nv, rv));
        Ok(r)
    }

    /// The story parts of a package.
    pub fn from_package(package: &Package) -> (r: Result<StoryPartMap, DocliError>)
        ensures
            match package.xml("word/document.xml"@) {
                None => r matches Err(x) && x.view_pair() == (ErrorCode::InvalidDocx, "missing word/document.xml"@),
                Some(d) => match story_outcome(d, package.xml("word/_rels/document.xml.rels"@)) {
                    Ok(b) => r matches Ok(m) && m.bindings() == b,
                    Err(e) => r matches Err(x) && x.view_pair() == (ErrorCode::InvalidDocx, e),
                },
            },
    {
        let document = match package.xml_part("word/document.xml") {
            Some(d) => d,
            None => {
                return Err(DocliError::InvalidDocx { message: String::from_str("missing word/document.xml") });
            },
        };
        let rels = match package.xml_part("word/_rels/document.xml.rels") {
            Some(r) => Some(r.as_slice()),
            None => None,
        };
        Self::from_bytes(document.as_slice(), rels)
    }

    /// The part that holds `story`.
    pub fn path_for(&self, story: &Story) -> (r: Option<&str>)
        ensures
            match self.part(*story) {
                Some(p) => r matches Some(s) && s@ == p,
                None => r is None,
            },
    {
        let ghost b = self.bindings();
        let mut i = self.parts.len();
        assert(b.subrange(0, i as int) =~= b);
        while i > 0
            invariant
                i <= self.parts.len(),
                b == self.bindings(),
                last_binding(b, *story) == last_binding(b.subrange(0, i as int), *story),
            decreases i,
        {
            assert(b.subrange(0, i as int).drop_last() =~= b.subrange(0, i - 1));
            if self.parts[i - 1].0 == *story {
                return Some(self.parts[i - 1].1.as_str());
            }
            i = i - 1;
        }
        None
    }
}

/// The story and part of reference element `n`, when it resolves.
fn reference_of(n: &crate::xml::XmlNode, rels: &Vec<(String, String)>) -> (r: Option<(Story, String)>)
    ensures
        match reference_binding(n@, rels_view(rels@)) {
            Some((s, p)) => r matches Some(x) && x.0 == s && x.1@ == p,
            None => r is None,
        },
{
    let is_header = node_has_tag(n, "headerReference");
    if !is_header && !node_has_tag(n, "footerReference") {
        return None;
    }
    let story = match story_from_reference_type(is_header, find_attr(&n.attrs, "type")) {
        Some(s) => s,
        None => {
            return None;
        },
    };
    let id = match find_attr(&n.attrs, "id") {
        Some(i) => i,
        None => {
            return None;
        },
    };
    let target = match rel_get(rels, id) {
        Some(t) => t,
        None => {
            return None;
        },
    };
    Some((story, normalize_word_target(target.as_str())))
}

/// The story a header (or footer) reference of type `reference_type` stands for.
pub fn story_from_reference_type(is_header: bool, reference_type: Option<&String>) -> (r: Option<Story>)
    ensures
        r == reference_story(
            is_header,
            match reference_type {
                Some(t) => Some(t@),
                None => None,
            },
        ),
{
    let ty = match reference_type {
        Some(t) => t.as_str(),
        None => "default",
    };
    if str_eq_lit(ty, "default") {
        Some(if is_header { Story::HeaderDefault } else { Story::FooterDefault })
    } else if str_eq_lit(ty, "first") {
        Some(if is_header { Story::HeaderFirst } else { Story::FooterFirst })
    } else if str_eq_lit(ty, "even") {
        Some(if is_header { Story::HeaderEven } else { Story::FooterEven })
    } else {
        None
    }
}

fn str_eq_lit(a: &str, b: &str) -> (r: bool)
    ensures
        r == (a@ == b@),
{
    crate::bytes::str_eq(a, b)
}

/// A relationship target as a package path: unchanged when it starts with
/// `word/`, else under `word/`.
pub fn normalize_word_target(target: &str) -> (r: String)
    ensures
        r@ == word_path(target@),
{
    let cs = chars_of(target);
    proof {
        reveal_strlit("word/");
    }
    if cs.len() >= 5 && cs[0] == 'w' && cs[1] == 'o' && cs[2] == 'r' && cs[3] == 'd' && cs[4] == '/' {
        assert(cs@.subrange(0, 5) =~= "word/"@);
        String::from_str(target)
    } else {
        if cs.len() >= 5 {
            assert(cs@.subrange(0, 5)[0] == cs@[0]);
            assert(cs@.subrange(0, 5)[1] == cs@[1]);
            assert(cs@.subrange(0, 5)[2] == cs@[2]);
            assert(cs@.subrange(0, 5)[3] == cs@[3]);
            assert(cs@.subrange(0, 5)[4] == cs@[4]);
        }
        let mut v: Vec<char> = Vec::new();
        push_str_chars(&mut v, "word/");
        push_str_chars(&mut v, target);
        string_from_chars(&v)
    }
}

} // verus!
