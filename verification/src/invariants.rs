//! Package-wide invariants: Word ids are unique across parts, tracked changes
//! and comment range markers sit where the schema allows, and the content
//! types declare the comments part and the extensions of linked media.

use vstd::prelude::*;

use crate::assoc::{assoc_get, assoc_insert, assoc_put, string_pairs_view};
use crate::bytes::{lossy_string, str_eq, utf8_lossy};
use crate::chars::{
    contains_seq, find_char_from, find_chars, first_occurrence, index_of_from, lemma_index_of_bounds,
    lemma_index_of_shift, lines_of, split_lines,
};
use crate::package::{Package, XmlPart};
use crate::schema::{finding, issues_view, push_finding, IssueView, ValidationIssue, ValidationSeverity};
use crate::text::{chars_of, push_all_chars, push_str_chars, string_from_chars};
use crate::xml::{
    has_ancestor_tag, has_tag, inside_tag, node_has_tag, nodes_view, parent_of, parse_xml, roxml_document,
    AttrView, NodeView, XmlAttr, XmlNode,
};

verus! {

/// The ids seen so far, each with the part it was last seen in, and the findings so far.
pub struct InvState {
    pub ids: Seq<(Seq<char>, Seq<char>)>,
    pub issues: Seq<IssueView>,
}

/// An attribute `id` in a WordprocessingML namespace.
pub open spec fn is_word_id(a: AttrView) -> bool {
    a.name == "id"@ && match a.namespace {
        Some(ns) => contains_seq(ns, "wordprocessingml"@),
        None => false,
    }
}

pub open spec fn attr_step(st: InvState, a: AttrView, part: Seq<char>) -> InvState {
    if is_word_id(a) {
        let ids = assoc_insert(st.ids, a.value, part);
        match assoc_get(st.ids, a.value) {
            Some(prev) => InvState {
                ids,
                issues: st.issues + finding(
                    "duplicate-word-id"@,
                    "duplicate w:id "@ + a.value + " found in "@ + prev + " and "@ + part,
                    ValidationSeverity::Error,
                    part,
                ),
            },
            None => InvState { ids, issues: st.issues },
        }
    } else {
        st
    }
}

/// The state after the first `n` attributes.
pub open spec fn attrs_fold(st: InvState, attrs: Seq<AttrView>, n: int, part: Seq<char>) -> InvState
    decreases n,
{
    if n <= 0 {
        st
    } else {
        attr_step(attrs_fold(st, attrs, n - 1, part), attrs[n - 1], part)
    }
}

/// What the placement of node `k` gives.
pub open spec fn placement_findings(nodes: Seq<NodeView>, k: int, part: Seq<char>) -> Seq<IssueView> {
    let n = nodes[k];
    if has_tag(n, "ins"@) || has_tag(n, "del"@) {
        if has_ancestor_tag(nodes, k, "r"@) || has_ancestor_tag(nodes, k, "t"@) {
            finding(
                "invalid-tracked-change-nesting"@,
                "tracked changes may not be nested inside w:r or w:t"@,
                ValidationSeverity::Error,
                part,
            )
        } else {
            Seq::empty()
        }
    } else if has_tag(n, "commentRangeStart"@) || has_tag(n, "commentRangeEnd"@) {
        if parent_of(nodes, k) matches Some(p) && has_tag(nodes[p], "r"@) {
            finding(
                "invalid-comment-range-placement"@,
                "comment range markers must be siblings of w:r, not children"@,
                ValidationSeverity::Error,
                part,
            )
        } else {
            Seq::empty()
        }
    } else {
        Seq::empty()
    }
}

pub open spec fn node_step(st: InvState, nodes: Seq<NodeView>, k: int, part: Seq<char>) -> InvState {
    if nodes[k].is_element {
        let s = attrs_fold(st, nodes[k].attrs, nodes[k].attrs.len() as int, part);
        InvState { ids: s.ids, issues: s.issues + placement_findings(nodes, k, part) }
    } else {
        st
    }
}

/// The state after nodes `0 .. n` of a part.
pub open spec fn nodes_fold(st: InvState, nodes: Seq<NodeView>, n: int, part: Seq<char>) -> InvState
    decreases n,
{
    if n <= 0 {
        st
    } else {
        node_step(nodes_fold(st, nodes, n - 1, part), nodes, n - 1, part)
    }
}

/// The state after one part; a part that does not parse is reported.
pub open spec fn part_step(st: InvState, path: Seq<char>, bytes: Seq<u8>) -> InvState {
    match roxml_document(utf8_lossy(bytes)) {
        Err(e) => InvState {
            ids: st.ids,
            issues: st.issues + finding("invalid-xml"@, e, ValidationSeverity::Error, path),
        },
        Ok(d) => nodes_fold(st, d.nodes, d.nodes.len() as int, path),
    }
}

/// The state after the first `n` XML parts.
pub open spec fn parts_fold(parts: Seq<XmlPart>, n: int) -> InvState
    decreases n,
{
    if n <= 0 {
        InvState { ids: Seq::empty(), issues: Seq::empty() }
    } else {
        part_step(parts_fold(parts, n - 1), parts[n - 1].path@, parts[n - 1].bytes@)
    }
}

/// The value of attribute `name` on a line: what follows the first `name="`
/// up to the next `"`.
pub open spec fn attribute_in_line(line: Seq<char>, name: Seq<char>) -> Option<Seq<char>> {
    let marker = name + seq!['=', '"'];
    match first_occurrence(line, marker) {
        None => None,
        Some(start) => {
            let rest = line.subrange(start + marker.len(), line.len() as int);
            match index_of_from(rest, '"', 0) {
                Some(end) => Some(rest.subrange(0, end)),
                None => None,
            }
        },
    }
}

/// `s` without its leading slashes.
pub open spec fn strip_slashes(s: Seq<char>) -> Seq<char>
    decreases s.len(),
{
    if s.len() > 0 && s[0] == '/' {
        strip_slashes(s.drop_first())
    } else {
        s
    }
}

/// What one line of the content types declares: a part name (without its
/// leading slash) and a default `*.<extension>`.
pub open spec fn line_entries(line: Seq<char>) -> Seq<Seq<char>> {
    (match attribute_in_line(line, "PartName"@) {
        Some(v) => seq![strip_slashes(v)],
        None => Seq::empty(),
    }) + (match attribute_in_line(line, "Extension"@) {
        Some(e) => seq!["*."@ + e],
        None => Seq::empty(),
    })
}

pub open spec fn entries_of(lines: Seq<Seq<char>>, n: int) -> Seq<Seq<char>>
    decreases n,
{
    if n <= 0 {
        Seq::empty()
    } else {
        entries_of(lines, n - 1) + line_entries(lines[n - 1])
    }
}

/// What `[Content_Types].xml` declares, line by line.
pub open spec fn content_type_entries(pkg: &Package) -> Seq<Seq<char>> {
    match pkg.xml("[Content_Types].xml"@) {
        None => Seq::empty(),
        Some(b) => entries_of(split_lines(utf8_lossy(b)), split_lines(utf8_lossy(b)).len() as int),
    }
}

/// The value of the first attribute named `name` that has no namespace.
pub open spec fn plain_attr_value(attrs: Seq<AttrView>, name: Seq<char>) -> Option<Seq<char>>
    decreases attrs.len(),
{
    if attrs.len() == 0 {
        None
    } else if attrs[0].name == name && attrs[0].namespace is None {
        Some(attrs[0].value)
    } else {
        plain_attr_value(attrs.drop_first(), name)
    }
}

/// The `Target`s of the `Relationship` elements among nodes `0 .. n`.
pub open spec fn targets_upto(nodes: Seq<NodeView>, n: int) -> Seq<Seq<char>>
    decreases n,
{
    if n <= 0 {
        Seq::empty()
    } else {
        let prev = targets_upto(nodes, n - 1);
        let k = n - 1;
        if has_tag(nodes[k], "Relationship"@) && plain_attr_value(nodes[k].attrs, "Target"@) is Some {
            prev.push(plain_attr_value(nodes[k].attrs, "Target"@).unwrap())
        } else {
            prev
        }
    }
}

/// The relationship targets of a relationships part, or the parse error.
pub open spec fn relationship_targets(bytes: Seq<u8>) -> Result<Seq<Seq<char>>, Seq<char>> {
    match roxml_document(utf8_lossy(bytes)) {
        Err(e) => Err(e),
        Ok(d) => Ok(targets_upto(d.nodes, d.nodes.len() as int)),
    }
}

/// The targets of the main document's relationships; none when the part is
/// missing or does not parse.
pub open spec fn document_targets(pkg: &Package) -> Seq<Seq<char>> {
    match pkg.xml("word/_rels/document.xml.rels"@) {
        Some(b) => match relationship_targets(b) {
            Ok(t) => t,
            Err(_) => Seq::empty(),
        },
        None => Seq::empty(),
    }
}

/// The last index of `c` in `s` below `n`.
pub open spec fn last_index_below(s: Seq<char>, c: char, n: int) -> Option<int>
    decreases n,
{
    if n <= 0 {
        None
    } else if s[n - 1] == c {
        Some(n - 1)
    } else {
        last_index_below(s, c, n - 1)
    }
}

/// What follows the last `.` of `t`; all of `t` when it has none.
pub open spec fn extension_of(t: Seq<char>) -> Seq<char> {
    match last_index_below(t, '.', t.len() as int) {
        Some(i) => t.subrange(i + 1, t.len() as int),
        None => t,
    }
}

pub open spec fn is_media(t: Seq<char>) -> bool {
    t.len() >= 6 && t.subrange(0, 6) == "media/"@
}

/// The findings on the first `n` targets: media whose extension has no default.
pub open spec fn media_findings(targets: Seq<Seq<char>>, n: int, types: Seq<Seq<char>>) -> Seq<IssueView>
    decreases n,
{
    if n <= 0 {
        Seq::empty()
    } else {
        let t = targets[n - 1];
        media_findings(targets, n - 1, types) + if is_media(t) && !types.contains("*."@ + extension_of(t)) {
            finding(
                "missing-media-content-type"@,
                "missing content type default for media extension "@ + extension_of(t),
                ValidationSeverity::Warning,
                "[Content_Types].xml"@,
            )
        } else {
            Seq::empty()
        }
    }
}

/// The finding on an undeclared comments part.
pub open spec fn comments_type_findings(pkg: &Package) -> Seq<IssueView> {
    if pkg.inventory.has("word/comments.xml"@) && !content_type_entries(pkg).contains("word/comments.xml"@) {
        finding(
            "missing-comments-content-type"@,
            "word/comments.xml exists but is not declared in [Content_Types].xml"@,
            ValidationSeverity::Error,
            "[Content_Types].xml"@,
        )
    } else {
        Seq::empty()
    }
}

/// All findings on the package.
pub open spec fn invariant_findings(pkg: &Package) -> Seq<IssueView> {
    parts_fold(pkg.xml_parts@, pkg.xml_parts@.len() as int).issues + comments_type_findings(pkg)
        + media_findings(document_targets(pkg), document_targets(pkg).len() as int, content_type_entries(pkg))
}

/// The value of attribute `name` on the line `line`.
fn attribute_in_chars(line: &Vec<char>, name: &str) -> (r: Option<Vec<char>>)
    ensures
        match attribute_in_line(line@, name@) {
            Some(v) => r matches Some(x) && x@ == v,
            None => r is None,
        },
{
    let mut marker = chars_of(name);
    marker.push('=');
    marker.push('"');
    assert(marker@ =~= name@ + seq!['=', '"']);
    let start = match find_chars(line, &marker) {
        Some(s) => s,
        None => {
            return None;
        },
    };
    assert(crate::chars::occurs_at(line@, marker@, start as int));
    let line_len = line.len();
    assert(start + marker.len() <= line_len);
    let from = start + marker.len();
    let ghost rest = line@.subrange(from as int, line@.len() as int);
    proof {
        lemma_index_of_shift(line@, '"', from as int, from as int);
    }
    let end = match find_char_from(line, '"', from) {
        Some(e) => e,
        None => {
            return None;
        },
    };
    let mut v: Vec<char> = Vec::new();
    let mut k = from;
    while k < end
        invariant
            from <= k <= end < line.len(),
            v@ == line@.subrange(from as int, k as int),
        decreases end - k,
    {
        v.push(line[k]);
        k = k + 1;
        assert(v@ =~= line@.subrange(from as int, k as int));
    }
    assert(rest.subrange(0, end - from) =~= v@);
    Some(v)
}

/// The value of attribute `attr` on `line`: what follows the first `attr="`
/// up to the next `"`.
pub fn extract_attribute(line: &str, attr: &str) -> (r: Option<String>)
    ensures
        match attribute_in_line(line@, attr@) {
            Some(v) => r matches Some(x) && x@ == v,
            None => r is None,
        },
{
    let cs = chars_of(line);
    match attribute_in_chars(&cs, attr) {
        Some(v) => Some(string_from_chars(&v)),
        None => None,
    }
}

/// `v` without its leading slashes.
fn strip_leading_slashes(v: &Vec<char>) -> (r: Vec<char>)
    ensures
        r@ == strip_slashes(v@),
{
    let mut i: usize = 0;
    assert(v@.subrange(0, v@.len() as int) =~= v@);
    while i < v.len() && v[i] == '/'
        invariant
            0 <= i <= v.len(),
            strip_slashes(v@) == strip_slashes(v@.subrange(i as int, v@.len() as int)),
        decreases v.len() - i,
    {
        assert(v@.subrange(i as int, v@.len() as int).drop_first() =~= v@.subrange(i + 1, v@.len() as int));
        i = i + 1;
    }
    let mut out: Vec<char> = Vec::new();
    let mut k = i;
    while k < v.len()
        invariant
            i <= k <= v.len(),
            out@ == v@.subrange(i as int, k as int),
        decreases v.len() - k,
    {
        out.push(v[k]);
        k = k + 1;
        assert(out@ =~= v@.subrange(i as int, k as int));
    }
    assert(out@ =~= v@.subrange(i as int, v@.len() as int));
    out
}

pub open spec fn strings_of(v: Seq<String>) -> Seq<Seq<char>> {
    v.map_values(|s: String| s@)
}

/// The part names and default extensions that `[Content_Types].xml` declares.
pub fn declared_content_types(package: &Package) -> (r: Vec<String>)
    ensures
        strings_of(r@) == content_type_entries(package),
{
    let mut entries: Vec<String> = Vec::new();
    let bytes = match package.xml_part("[Content_Types].xml") {
        Some(b) => b,
        None => {
            assert(strings_of(entries@) =~= Seq::<Seq<char>>::empty());
            return entries;
        },
    };
    let text = lossy_string(bytes.as_slice());
    let cs = chars_of(text.as_str());
    let lines = lines_of(&cs);
    let ghost ls = lines@.map_values(|l: Vec<char>| l@);
    let mut i: usize = 0;
    assert(strings_of(entries@) =~= entries_of(ls, 0));
    while i < lines.len()
        invariant
            0 <= i <= lines.len(),
            ls == lines@.map_values(|l: Vec<char>| l@),
            strings_of(entries@) == entries_of(ls, i as int),
        decreases lines.len() - i,
    {
        let ghost before = strings_of(entries@);
        let line = &lines[i];
        assert(ls[i as int] == line@);
        match attribute_in_chars(line, "PartName") {
            Some(v) => {
                let stripped = strip_leading_slashes(&v);
                entries.push(string_from_chars(&stripped));
            },
            None => {},
        }
        let ghost mid = strings_of(entries@);
        match attribute_in_chars(line, "Extension") {
            Some(e) => {
                let mut t: Vec<char> = Vec::new();
                t.push('*');
                t.push('.');
                push_all_chars(&mut t, &e);
                proof {
                    reveal_strlit("*.");
                }
                assert(t@ =~= "*."@ + e@);
                entries.push(string_from_chars(&t));
            },
            None => {},
        }
        assert(strings_of(entries@) =~= before + line_entries(line@));
        i = i + 1;
    }
    entries
}

/// Whether `s` is among the strings of `v`.
fn contains_string(v: &Vec<String>, s: &str) -> (r: bool)
    ensures
        r == strings_of(v@).contains(s@),
{
    let mut i: usize = 0;
    while i < v.len()
        invariant
            0 <= i <= v.len(),
            forall|j: int| 0 <= j < i ==> (#[trigger] v@[j])@ != s@,
        decreases v.len() - i,
    {
        if str_eq(v[i].as_str(), s) {
            assert(strings_of(v@)[i as int] == s@);
            return true;
        }
        i = i + 1;
    }
    assert forall|j: int| 0 <= j < strings_of(v@).len() implies strings_of(v@)[j] != s@ by {
        assert(strings_of(v@)[j] == v@[j]@);
    }
    false
}

/// The value of the first attribute named `name` without a namespace.
fn find_plain_attr<'a>(attrs: &'a Vec<XmlAttr>, name: &str) -> (r: Option<&'a String>)
    ensures
        match r {
            Some(v) => plain_attr_value(attrs@.map_values(|a: XmlAttr| a@), name@) == Some(v@),
            None => plain_attr_value(attrs@.map_values(|a: XmlAttr| a@), name@) is None,
        },
{
    let ghost view = attrs@.map_values(|a: XmlAttr| a@);
    assert(view.subrange(0, view.len() as int) =~= view);
    let mut i: usize = 0;
    while i < attrs.len()
        invariant
            0 <= i <= attrs.len(),
            view == attrs@.map_values(|a: XmlAttr| a@),
            plain_attr_value(view, name@) == plain_attr_value(view.subrange(i as int, view.len() as int), name@),
        decreases attrs.len() - i,
    {
        let ghost rest = view.subrange(i as int, view.len() as int);
        assert(rest[0] == attrs@[i as int]@);
        assert(rest.drop_first() =~= view.subrange(i + 1, view.len() as int));
        if str_eq(attrs[i].name.as_str(), name) && attrs[i].namespace.is_none() {
            return Some(&attrs[i].value);
        }
        i = i + 1;
    }
    None
}

/// The `Target`s of the `Relationship` elements of a relationships part.
pub fn parse_relationship_targets(bytes: &[u8]) -> (r: Result<Vec<String>, String>)
    ensures
        match relationship_targets(bytes@) {
            Ok(t) => r matches Ok(v) && strings_of(v@) == t,
            Err(e) => r matches Err(x) && x@ == e,
        },
{
    let text = lossy_string(bytes);
    let doc = match parse_xml(text.as_str()) {
        Ok(d) => d,
        Err(e) => {
            return Err(e);
        },
    };
    let ghost nv = nodes_view(doc.nodes@);
    assert(doc@.nodes == nv);
    let mut out: Vec<String> = Vec::new();
    let mut k: usize = 0;
    assert(strings_of(out@) =~= targets_upto(nv, 0));
    while k < doc.nodes.len()
        invariant
            0 <= k <= doc.nodes.len(),
            nv == nodes_view(doc.nodes@),
            strings_of(out@) == targets_upto(nv, k as int),
        decreases doc.nodes.len() - k,
    {
        let n = &doc.nodes[k];
        assert(nv[k as int] == n@);
        if node_has_tag(n, "Relationship") {
            match find_plain_attr(&n.attrs, "Target") {
                Some(t) => out.push(t.clone()),
                None => {},
            }
        }
        k = k + 1;
        assert(strings_of(out@) =~= targets_upto(nv, k as int));
    }
    Ok(out)
}

/// What follows the last `.` of `t`, or all of `t`.
fn extension_chars(t: &Vec<char>) -> (r: Vec<char>)
    ensures
        r@ == extension_of(t@),
{
    let mut n = t.len();
    while n > 0 && t[n - 1] != '.'
        invariant
            n <= t.len(),
            last_index_below(t@, '.', t@.len() as int) == last_index_below(t@, '.', n as int),
        decreases n,
    {
        n = n - 1;
    }
    let from = if n > 0 {
        n
    } else {
        0
    };
    let mut out: Vec<char> = Vec::new();
    let mut k = from;
    while k < t.len()
        invariant
            from <= k <= t.len(),
            out@ == t@.subrange(from as int, k as int),
        decreases t.len() - k,
    {
        out.push(t[k]);
        k = k + 1;
        assert(out@ =~= t@.subrange(from as int, k as int));
    }
    assert(t@.subrange(0, t@.len() as int) =~= t@);
    out
}

/// Folds the attributes of an element into the id map.
fn check_attrs(
    attrs: &Vec<XmlAttr>,
    part: &str,
    ids: &mut Vec<(String, String)>,
    issues: &mut Vec<ValidationIssue>,
)
    ensures
        (InvState { ids: string_pairs_view(final(ids)@), issues: issues_view(final(issues)@) }) == attrs_fold(
            InvState { ids: string_pairs_view(old(ids)@), issues: issues_view(old(issues)@) },
            attrs@.map_values(|a: XmlAttr| a@),
            attrs.len() as int,
            part@,
        ),
{
    let ghost st0 = InvState { ids: string_pairs_view(ids@), issues: issues_view(issues@) };
    let ghost av = attrs@.map_values(|a: XmlAttr| a@);
    let word = chars_of("wordprocessingml");
    let mut i: usize = 0;
    while i < attrs.len()
        invariant
            0 <= i <= attrs.len(),
            av == attrs@.map_values(|a: XmlAttr| a@),
            word@ == "wordprocessingml"@,
            (InvState { ids: string_pairs_view(ids@), issues: issues_view(issues@) }) == attrs_fold(
                st0,
                av,
                i as int,
                part@,
            ),
        decreases attrs.len() - i,
    {
        let a = &attrs[i];
        assert(av[i as int] == a@);
        let is_id = if str_eq(a.name.as_str(), "id") {
            match &a.namespace {
                Some(ns) => {
                    let nc = chars_of(ns.as_str());
                    find_chars(&nc, &word).is_some()
                },
                None => false,
            }
        } else {
            false
        };
        assert(is_id == is_word_id(av[i as int]));
        if is_id {
            let ghost ids_before = string_pairs_view(ids@);
            match assoc_put(ids, a.value.clone(), String::from_str(part)) {
                Some(prev) => {
                    let mut m: Vec<char> = Vec::new();
                    push_str_chars(&mut m, "duplicate w:id ");
                    push_str_chars(&mut m, a.value.as_str());
                    push_str_chars(&mut m, " found in ");
                    push_str_chars(&mut m, prev.as_str());
                    push_str_chars(&mut m, " and ");
                    push_str_chars(&mut m, part);
                    assert(m@ =~= "duplicate w:id "@ + a@.value + " found in "@ + prev@ + " and "@ + part@);
                    push_finding(issues, "duplicate-word-id", string_from_chars(&m), ValidationSeverity::Error, part);
                },
                None => {},
            }
        }
        i = i + 1;
    }
}

/// Folds node `k` of a part into the state.
fn check_node_invariants(
    nodes: &Vec<XmlNode>,
    k: usize,
    part: &str,
    ids: &mut Vec<(String, String)>,
    issues: &mut Vec<ValidationIssue>,
)
    requires
        k < nodes.len(),
    ensures
        (InvState { ids: string_pairs_view(final(ids)@), issues: issues_view(final(issues)@) }) == node_step(
            InvState { ids: string_pairs_view(old(ids)@), issues: issues_view(old(issues)@) },
            nodes_view(nodes@),
            k as int,
            part@,
        ),
{
    let ghost nv = nodes_view(nodes@);
    let n = &nodes[k];
    assert(nv[k as int] == n@);
    if !n.is_element {
        return;
    }
    check_attrs(&n.attrs, part, ids, issues);
    let ghost mid = issues_view(issues@);
    if node_has_tag(n, "ins") || node_has_tag(n, "del") {
        if inside_tag(nodes, k, "r") || inside_tag(nodes, k, "t") {
            push_finding(
                issues,
                "invalid-tracked-change-nesting",
                String::from_str("tracked changes may not be nested inside w:r or w:t"),
                ValidationSeverity::Error,
                part,
            );
        }
    } else if node_has_tag(n, "commentRangeStart") || node_has_tag(n, "commentRangeEnd") {
        let under_run = match n.parent {
            Some(p) => p < k && node_has_tag(&nodes[p], "r"),
            None => false,
        };
        proof {
            if let Some(p) = n.parent {
                if p < k {
                    assert(nv[p as int] == nodes@[p as int]@);
                }
            }
        }
        if under_run {
            push_finding(
                issues,
                "invalid-comment-range-placement",
                String::from_str("comment range markers must be siblings of w:r, not children"),
                ValidationSeverity::Error,
                part,
            );
        }
    }
    assert(issues_view(issues@) =~= mid + placement_findings(nv, k as int, part@));
}

/// Folds one XML part into the state.
fn check_part_invariants(part: &XmlPart, ids: &mut Vec<(String, String)>, issues: &mut Vec<ValidationIssue>)
    ensures
        (InvState { ids: string_pairs_view(final(ids)@), issues: issues_view(final(issues)@) }) == part_step(
            InvState { ids: string_pairs_view(old(ids)@), issues: issues_view(old(issues)@) },
            part.path@,
            part.bytes@,
        ),
{
    let ghost st0 = InvState { ids: string_pairs_view(ids@), issues: issues_view(issues@) };
    let text = lossy_string(part.bytes.as_slice());
    let doc = match parse_xml(text.as_str()) {
        Ok(d) => d,
        Err(e) => {
            push_finding(issues, "invalid-xml", e, ValidationSeverity::Error, part.path.as_str());
            return;
        },
    };
    let ghost nv = nodes_view(doc.nodes@);
    assert(doc@.nodes == nv);
    let mut k: usize = 0;
    while k < doc.nodes.len()
        invariant
            0 <= k <= doc.nodes.len(),
            nv == nodes_view(doc.nodes@),
            (InvState { ids: string_pairs_view(ids@), issues: issues_view(issues@) }) == nodes_fold(
                st0,
                nv,
                k as int,
                part.path@,
            ),
        decreases doc.nodes.len() - k,
    {
        check_node_invariants(&doc.nodes, k, part.path.as_str(), ids, issues);
        k = k + 1;
    }
}

/// Checks the package-wide invariants.
pub fn check_invariants(package: &Package) -> (issues: Vec<ValidationIssue>)
    ensures
        issues_view(issues@) == invariant_findings(package),
{
    let mut issues: Vec<ValidationIssue> = Vec::new();
    let mut ids: Vec<(String, String)> = Vec::new();
    let mut i: usize = 0;
    assert(string_pairs_view(ids@) =~= Seq::<(Seq<char>, Seq<char>)>::empty());
    assert(issues_view(issues@) =~= Seq::<IssueView>::empty());
    while i < package.xml_parts.len()
        invariant
            0 <= i <= package.xml_parts.len(),
            (InvState { ids: string_pairs_view(ids@), issues: issues_view(issues@) }) == parts_fold(
                package.xml_parts@,
                i as int,
            ),
        decreases package.xml_parts.len() - i,
    {
        check_part_invariants(&package.xml_parts[i], &mut ids, &mut issues);
        i = i + 1;
    }
    let ghost after_parts = issues_view(issues@);
    let content_types = declared_content_types(package);
    let targets = match package.xml_part("word/_rels/document.xml.rels") {
        Some(b) => match parse_relationship_targets(b.as_slice()) {
            Ok(t) => t,
            Err(_) => Vec::new(),
        },
        None => Vec::new(),
    };
    assert(strings_of(targets@) =~= document_targets(package));
    if package.inventory.contains_key("word/comments.xml") && !contains_string(&content_types, "word/comments.xml") {
        push_finding(
            &mut issues,
            "missing-comments-content-type",
            String::from_str("word/comments.xml exists but is not declared in [Content_Types].xml"),
            ValidationSeverity::Error,
            "[Content_Types].xml",
        );
    }
    assert(issues_view(issues@) =~= after_parts + comments_type_findings(package));
    let ghost after_comments = issues_view(issues@);
    let ghost tv = strings_of(targets@);
    let ghost types = strings_of(content_types@);
    let mut j: usize = 0;
    proof {
        reveal_strlit("media/");
        reveal_strlit("*.");
    }
    while j < targets.len()
        invariant
            0 <= j <= targets.len(),
            tv == strings_of(targets@),
            types == strings_of(content_types@),
            types == content_type_entries(package),
            "media/"@ == seq!['m', 'e', 'd', 'i', 'a', '/'],
            "*."@ == seq!['*', '.'],
            issues_view(issues@) == after_comments + media_findings(tv, j as int, types),
        decreases targets.len() - j,
    {
        let ghost before = issues_view(issues@);
        let t = chars_of(targets[j].as_str());
        assert(t@ == tv[j as int]);
        let media = t.len() >= 6 && t[0] == 'm' && t[1] == 'e' && t[2] == 'd' && t[3] == 'i' && t[4] == 'a'
            && t[5] == '/';
        assert(media == is_media(t@)) by {
            if t@.len() >= 6 {
                assert(t@.subrange(0, 6)[0] == t@[0]);
                assert(t@.subrange(0, 6)[1] == t@[1]);
                assert(t@.subrange(0, 6)[2] == t@[2]);
                assert(t@.subrange(0, 6)[3] == t@[3]);
                assert(t@.subrange(0, 6)[4] == t@[4]);
                assert(t@.subrange(0, 6)[5] == t@[5]);
                if media {
                    assert(t@.subrange(0, 6) =~= "media/"@);
                }
            }
        }
        if media {
            let ext = extension_chars(&t);
            let mut pattern: Vec<char> = Vec::new();
            pattern.push('*');
            pattern.push('.');
            push_all_chars(&mut pattern, &ext);
            assert(pattern@ =~= "*."@ + ext@);
            let pattern_string = string_from_chars(&pattern);
            if !contains_string(&content_types, pattern_string.as_str()) {
                let message = crate::text::concat_message("missing content type default for media extension ", &ext);
                push_finding(
                    &mut issues,
                    "missing-media-content-type",
                    message,
                    ValidationSeverity::Warning,
                    "[Content_Types].xml",
                );
            }
        }
        j = j + 1;
        assert(issues_view(issues@) =~= after_comments + media_findings(tv, j as int, types));
    }
    issues
}

} // verus!
