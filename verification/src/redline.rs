//! Integrity of tracked changes and comment ranges: every insertion and
//! deletion carries a numeric id used once per part and an author, none is
//! nested in another, deleted runs use `delText`, and every comment range
//! start has its end and the reverse.

use std::collections::HashSet;

use vstd::prelude::*;

use crate::bytes::{lossy_string, str_eq, utf8_lossy};
use crate::markup::{decimal, push_decimal};
use crate::package::{Package, XmlPart};
use crate::schema::{finding, issues_view, push_finding, IssueView, ValidationIssue, ValidationSeverity};
use crate::text::{join3, push_str_chars, string_from_chars};
use crate::units::{parse_unsigned, parse_unsigned_chars};
use crate::text::chars_of;
use crate::xml::{
    attr, find_attr, first_tag, first_tag_in, has_ancestor_tag, has_tag, inside_tag, node_has_tag,
    node_subtree_end, nodes_view, parent_of, parse_xml, roxml_document, subtree_end, AttrView, NodeView,
    XmlAttr, XmlNode,
};

verus! {

broadcast use vstd::std_specs::hash::group_hash_axioms;

/// An insertion or a deletion.
pub open spec fn is_change(n: NodeView) -> bool {
    has_tag(n, "ins"@) || has_tag(n, "del"@)
}

/// The numeric id of a change, when its `id` attribute parses as a `u64`.
pub open spec fn change_id(n: NodeView) -> Option<u64> {
    match attr(n, "id"@) {
        Some(v) => match parse_unsigned(v, u64::MAX as int) {
            Some(id) => Some(id as u64),
            None => None,
        },
        None => None,
    }
}

/// The numeric ids of the changes among nodes `0 .. n`.
pub open spec fn seen_ids(nodes: Seq<NodeView>, n: int) -> Set<u64>
    decreases n,
{
    if n <= 0 {
        Set::empty()
    } else {
        let prev = seen_ids(nodes, n - 1);
        if is_change(nodes[n - 1]) && change_id(nodes[n - 1]) is Some {
            prev.insert(change_id(nodes[n - 1]).unwrap())
        } else {
            prev
        }
    }
}

/// What the `id` attribute of change `n` gives, given the ids seen before it.
pub open spec fn id_findings(n: NodeView, seen: Set<u64>, part: Seq<char>) -> Seq<IssueView> {
    match attr(n, "id"@) {
        None => finding(
            "redline-missing-id"@,
            "w:"@ + n.name + " element missing w:id attribute"@,
            ValidationSeverity::Error,
            part,
        ),
        Some(v) => match parse_unsigned(v, u64::MAX as int) {
            Some(id) => if seen.contains(id as u64) {
                finding(
                    "redline-duplicate-id"@,
                    "duplicate tracked-change id "@ + decimal(id as nat) + " in w:"@ + n.name,
                    ValidationSeverity::Error,
                    part,
                )
            } else {
                Seq::empty()
            },
            None => finding(
                "redline-invalid-id"@,
                "w:"@ + n.name + " has non-numeric w:id: "@ + v,
                ValidationSeverity::Error,
                part,
            ),
        },
    }
}

/// Some node among `from .. to` is a `t` element whose parent is a run.
pub open spec fn run_text_in(nodes: Seq<NodeView>, from: int, to: int) -> bool
    decreases to - from,
{
    if to <= from {
        false
    } else {
        run_text_in(nodes, from, to - 1) || (has_tag(nodes[to - 1], "t"@) && match parent_of(
            nodes,
            to - 1,
        ) {
            Some(p) => has_tag(nodes[p], "r"@),
            None => false,
        })
    }
}

/// A deletion whose runs hold `t` and no `delText`.
pub open spec fn del_uses_t(nodes: Seq<NodeView>, k: int) -> bool {
    &&& has_tag(nodes[k], "del"@)
    &&& run_text_in(nodes, k + 1, subtree_end(nodes, k))
    &&& first_tag_in(nodes, k + 1, subtree_end(nodes, k), "delText"@) is None
}

/// The findings on change `k`.
pub open spec fn change_findings(nodes: Seq<NodeView>, k: int, seen: Set<u64>, part: Seq<char>) -> Seq<IssueView> {
    let n = nodes[k];
    id_findings(n, seen, part) + (if !has_attr_named(n, "author"@) {
        finding(
            "redline-missing-author"@,
            "w:"@ + n.name + " element missing w:author attribute"@,
            ValidationSeverity::Warning,
            part,
        )
    } else {
        Seq::empty()
    }) + (if has_ancestor_tag(nodes, k, "ins"@) || has_ancestor_tag(nodes, k, "del"@) {
        finding(
            "redline-nested"@,
            "w:"@ + n.name + " is nested inside another tracked change"@,
            ValidationSeverity::Error,
            part,
        )
    } else {
        Seq::empty()
    }) + (if del_uses_t(nodes, k) {
        finding(
            "redline-del-uses-t"@,
            "w:del contains w:t instead of w:delText"@,
            ValidationSeverity::Warning,
            part,
        )
    } else {
        Seq::empty()
    })
}

pub open spec fn has_attr_named(n: NodeView, name: Seq<char>) -> bool {
    attr(n, name) is Some
}

/// Some attribute of `n` is named `name` and has value `value`.
pub open spec fn has_attr_pair(n: NodeView, name: Seq<char>, value: Seq<char>) -> bool {
    exists|i: int| 0 <= i < n.attrs.len() && (#[trigger] n.attrs[i]).name == name && n.attrs[i].value == value
}

/// Some element named `tag` has an `id` attribute equal to `value`.
pub open spec fn tag_with_id(nodes: Seq<NodeView>, tag: Seq<char>, value: Seq<char>) -> bool {
    exists|j: int| 0 <= j < nodes.len() && has_tag(#[trigger] nodes[j], tag) && has_attr_pair(nodes[j], "id"@, value)
}

/// The finding on a comment range marker `k` named `tag` whose partner is `other`.
pub open spec fn range_findings(nodes: Seq<NodeView>, k: int, tag: Seq<char>, other: Seq<char>, part: Seq<char>) -> Seq<
    IssueView,
> {
    match attr(nodes[k], "id"@) {
        Some(v) => if !tag_with_id(nodes, other, v) {
            finding(
                "redline-unbalanced-comment-range"@,
                tag + " id="@ + v + " has no matching "@ + other,
                ValidationSeverity::Error,
                part,
            )
        } else {
            Seq::empty()
        },
        None => Seq::empty(),
    }
}

/// The findings on node `k`, given the change ids seen before it.
pub open spec fn node_findings(nodes: Seq<NodeView>, k: int, seen: Set<u64>, part: Seq<char>) -> Seq<IssueView> {
    if is_change(nodes[k]) {
        change_findings(nodes, k, seen, part)
    } else if has_tag(nodes[k], "commentRangeStart"@) {
        range_findings(nodes, k, "commentRangeStart"@, "commentRangeEnd"@, part)
    } else if has_tag(nodes[k], "commentRangeEnd"@) {
        range_findings(nodes, k, "commentRangeEnd"@, "commentRangeStart"@, part)
    } else {
        Seq::empty()
    }
}

/// The findings on nodes `0 .. n` of a part.
pub open spec fn findings_upto(nodes: Seq<NodeView>, n: int, part: Seq<char>) -> Seq<IssueView>
    decreases n,
{
    if n <= 0 {
        Seq::empty()
    } else {
        findings_upto(nodes, n - 1, part) + node_findings(nodes, n - 1, seen_ids(nodes, n - 1), part)
    }
}

/// The findings on one XML part; a part that does not parse has none.
pub open spec fn part_findings(path: Seq<char>, bytes: Seq<u8>) -> Seq<IssueView> {
    match roxml_document(utf8_lossy(bytes)) {
        Ok(d) => findings_upto(d.nodes, d.nodes.len() as int, path),
        Err(_) => Seq::empty(),
    }
}

/// The findings on the XML parts, part after part.
pub open spec fn redline_findings(parts: Seq<XmlPart>) -> Seq<IssueView>
    decreases parts.len(),
{
    if parts.len() == 0 {
        Seq::empty()
    } else {
        redline_findings(parts.drop_last()) + part_findings(parts.last().path@, parts.last().bytes@)
    }
}

/// Every finding of `s` is on `part`.
pub open spec fn all_on(s: Seq<IssueView>, part: Seq<char>) -> bool {
    forall|i: int| 0 <= i < s.len() ==> (#[trigger] s[i]).3 == Some(part)
}

proof fn lemma_all_on_concat(a: Seq<IssueView>, b: Seq<IssueView>, part: Seq<char>)
    requires
        all_on(a, part),
        all_on(b, part),
    ensures
        all_on(a + b, part),
{
    assert forall|i: int| 0 <= i < (a + b).len() implies (#[trigger] (a + b)[i]).3 == Some(part) by {
        if i < a.len() {
            assert((a + b)[i] == a[i]);
        } else {
            assert((a + b)[i] == b[i - a.len()]);
        }
    }
}

proof fn lemma_node_findings_on(nodes: Seq<NodeView>, k: int, seen: Set<u64>, part: Seq<char>)
    ensures
        all_on(node_findings(nodes, k, seen, part), part),
{
    let n = nodes[k];
    if is_change(n) {
        let a = id_findings(n, seen, part);
        assert(all_on(a, part));
        let b = if !has_attr_named(n, "author"@) {
            finding(
                "redline-missing-author"@,
                "w:"@ + n.name + " element missing w:author attribute"@,
                ValidationSeverity::Warning,
                part,
            )
        } else {
            Seq::empty()
        };
        let c = if has_ancestor_tag(nodes, k, "ins"@) || has_ancestor_tag(nodes, k, "del"@) {
            finding(
                "redline-nested"@,
                "w:"@ + n.name + " is nested inside another tracked change"@,
                ValidationSeverity::Error,
                part,
            )
        } else {
            Seq::empty()
        };
        let d = if del_uses_t(nodes, k) {
            finding(
                "redline-del-uses-t"@,
                "w:del contains w:t instead of w:delText"@,
                ValidationSeverity::Warning,
                part,
            )
        } else {
            Seq::empty()
        };
        assert(all_on(b, part));
        assert(all_on(c, part));
        assert(all_on(d, part));
        lemma_all_on_concat(a, b, part);
        lemma_all_on_concat(a + b, c, part);
        lemma_all_on_concat(a + b + c, d, part);
        assert(change_findings(nodes, k, seen, part) == a + b + c + d);
    } else if has_tag(n, "commentRangeStart"@) {
        assert(all_on(range_findings(nodes, k, "commentRangeStart"@, "commentRangeEnd"@, part), part));
    } else if has_tag(n, "commentRangeEnd"@) {
        assert(all_on(range_findings(nodes, k, "commentRangeEnd"@, "commentRangeStart"@, part), part));
    }
}

proof fn lemma_findings_upto_on(nodes: Seq<NodeView>, n: int, part: Seq<char>)
    ensures
        all_on(findings_upto(nodes, n, part), part),
    decreases n,
{
    if n > 0 {
        lemma_findings_upto_on(nodes, n - 1, part);
        lemma_node_findings_on(nodes, n - 1, seen_ids(nodes, n - 1), part);
        lemma_all_on_concat(
            findings_upto(nodes, n - 1, part),
            node_findings(nodes, n - 1, seen_ids(nodes, n - 1), part),
            part,
        );
    }
}

/// Every tracked-change finding names the part it was found in.
pub proof fn law_findings_name_their_part(parts: Seq<XmlPart>)
    ensures
        forall|i: int|
            0 <= i < redline_findings(parts).len() ==> exists|j: int|
                0 <= j < parts.len() && (#[trigger] redline_findings(parts)[i]).3 == Some(parts[j].path@),
    decreases parts.len(),
{
    if parts.len() > 0 {
        let prev = parts.drop_last();
        law_findings_name_their_part(prev);
        let last = parts.last();
        let a = redline_findings(prev);
        let b = part_findings(last.path@, last.bytes@);
        match roxml_document(utf8_lossy(last.bytes@)) {
            Ok(d) => lemma_findings_upto_on(d.nodes, d.nodes.len() as int, last.path@),
            Err(_) => {},
        }
        assert(all_on(b, last.path@));
        assert forall|i: int| 0 <= i < (a + b).len() implies exists|j: int|
            0 <= j < parts.len() && (#[trigger] (a + b)[i]).3 == Some(parts[j].path@) by {
            if i < a.len() {
                assert((a + b)[i] == a[i]);
                let j = choose|j: int| 0 <= j < prev.len() && a[i].3 == Some(prev[j].path@);
                assert(parts[j] == prev[j]);
            } else {
                assert((a + b)[i] == b[i - a.len()]);
                assert(parts[parts.len() - 1] == last);
            }
        }
        assert(redline_findings(parts) == a + b);
    }
}

/// Whether some attribute is named `name` with value `value`.
fn attrs_have(attrs: &Vec<XmlAttr>, name: &str, value: &str) -> (r: bool)
    ensures
        r == exists|i: int|
            0 <= i < attrs.len() && (#[trigger] attrs@[i])@.name == name@ && attrs@[i]@.value == value@,
{
    let mut i: usize = 0;
    while i < attrs.len()
        invariant
            0 <= i <= attrs.len(),
            forall|j: int| 0 <= j < i ==> !((#[trigger] attrs@[j])@.name == name@ && attrs@[j]@.value == value@),
        decreases attrs.len() - i,
    {
        if str_eq(attrs[i].name.as_str(), name) && str_eq(attrs[i].value.as_str(), value) {
            return true;
        }
        i = i + 1;
    }
    false
}

/// Whether some element named `tag` has an `id` attribute equal to `value`.
fn any_tag_with_id(nodes: &Vec<XmlNode>, tag: &str, value: &str) -> (r: bool)
    ensures
        r == tag_with_id(nodes_view(nodes@), tag@, value@),
{
    let ghost nv = nodes_view(nodes@);
    let mut j: usize = 0;
    while j < nodes.len()
        invariant
            0 <= j <= nodes.len(),
            nv == nodes_view(nodes@),
            forall|m: int| 0 <= m < j ==> !(has_tag(#[trigger] nv[m], tag@) && has_attr_pair(nv[m], "id"@, value@)),
        decreases nodes.len() - j,
    {
        assert(nv[j as int] == nodes@[j as int]@);
        if node_has_tag(&nodes[j], tag) && attrs_have(&nodes[j].attrs, "id", value) {
            proof {
                let i = choose|i: int|
                    0 <= i < nodes@[j as int].attrs.len() && (#[trigger] nodes@[j as int].attrs@[i])@.name == "id"@
                        && nodes@[j as int].attrs@[i]@.value == value@;
                assert(nv[j as int].attrs[i] == nodes@[j as int].attrs@[i]@);
                assert(has_attr_pair(nv[j as int], "id"@, value@));
            }
            return true;
        }
        proof {
            if has_attr_pair(nv[j as int], "id"@, value@) {
                let i = choose|i: int|
                    0 <= i < nv[j as int].attrs.len() && (#[trigger] nv[j as int].attrs[i]).name == "id"@
                        && nv[j as int].attrs[i].value == value@;
                assert(nv[j as int].attrs[i] == nodes@[j as int].attrs@[i]@);
            }
        }
        j = j + 1;
    }
    false
}

proof fn lemma_run_text_grows(nodes: Seq<NodeView>, from: int, a: int, b: int)
    requires
        a <= b,
        run_text_in(nodes, from, a),
    ensures
        run_text_in(nodes, from, b),
    decreases b - a,
{
    if a < b {
        lemma_run_text_grows(nodes, from, a, b - 1);
    }
}

/// Whether some `t` element among nodes `from .. to` sits directly in a run.
fn run_text(nodes: &Vec<XmlNode>, from: usize, to: usize) -> (r: bool)
    requires
        from <= to <= nodes.len(),
    ensures
        r == run_text_in(nodes_view(nodes@), from as int, to as int),
{
    let ghost nv = nodes_view(nodes@);
    let mut j = from;
    while j < to
        invariant
            from <= j <= to <= nodes.len(),
            nv == nodes_view(nodes@),
            !run_text_in(nv, from as int, j as int),
        decreases to - j,
    {
        assert(nv[j as int] == nodes@[j as int]@);
        if node_has_tag(&nodes[j], "t") {
            match nodes[j].parent {
                Some(p) => {
                    if p < j {
                        assert(nv[p as int] == nodes@[p as int]@);
                        if node_has_tag(&nodes[p], "r") {
                            proof {
                                lemma_run_text_grows(nv, from as int, j + 1, to as int);
                            }
                            return true;
                        }
                    }
                },
                None => {},
            }
        }
        j = j + 1;
    }
    false
}

/// Checks change `k` (an insertion or deletion) and records its id.
#[verifier::spinoff_prover]
#[verifier::rlimit(40)]
fn check_change(
    nodes: &Vec<XmlNode>,
    k: usize,
    part: &str,
    seen: &mut HashSet<u64>,
    issues: &mut Vec<ValidationIssue>,
)
    requires
        k < nodes.len(),
        is_change(nodes_view(nodes@)[k as int]),
    ensures
        issues_view(final(issues)@) == issues_view(old(issues)@) + change_findings(
            nodes_view(nodes@),
            k as int,
            old(seen)@,
            part@,
        ),
        final(seen)@ == (match change_id(nodes_view(nodes@)[k as int]) {
            Some(id) => old(seen)@.insert(id),
            None => old(seen)@,
        }),
{
    let ghost nv = nodes_view(nodes@);
    let ghost seen0 = seen@;
    let ghost start = issues_view(issues@);
    let n = &nodes[k];
    assert(nv[k as int] == n@);
    let tag = n.name.as_str();
    match find_attr(&n.attrs, "id") {
        None => {
            push_finding(
                issues,
                "redline-missing-id",
                join3("w:", tag, " element missing w:id attribute"),
                ValidationSeverity::Error,
                part,
            );
        },
        Some(val) => {
            let cs = chars_of(val.as_str());
            assert(cs@.subrange(0, cs.len() as int) =~= cs@);
            match parse_unsigned_chars(&cs, 0, cs.len(), u64::MAX) {
                Some(id) => {
                    if !seen.insert(id) {
                        let mut m: Vec<char> = Vec::new();
                        push_str_chars(&mut m, "duplicate tracked-change id ");
                        push_decimal(&mut m, id);
                        push_str_chars(&mut m, " in w:");
                        push_str_chars(&mut m, tag);
                        assert(m@ =~= "duplicate tracked-change id "@ + decimal(id as nat) + " in w:"@ + n@.name);
                        push_finding(
                            issues,
                            "redline-duplicate-id",
                            string_from_chars(&m),
                            ValidationSeverity::Error,
                            part,
                        );
                    }
                },
                None => {
                    let mut m: Vec<char> = Vec::new();
                    push_str_chars(&mut m, "w:");
                    push_str_chars(&mut m, tag);
                    push_str_chars(&mut m, " has non-numeric w:id: ");
                    push_str_chars(&mut m, val.as_str());
                    assert(m@ =~= "w:"@ + n@.name + " has non-numeric w:id: "@ + val@);
                    push_finding(issues, "redline-invalid-id", string_from_chars(&m), ValidationSeverity::Error, part);
                },
            }
        },
    }
    assert(issues_view(issues@) == start + id_findings(nv[k as int], seen0, part@));
    let ghost after_id = issues_view(issues@);
    if find_attr(&n.attrs, "author").is_none() {
        push_finding(
            issues,
            "redline-missing-author",
            join3("w:", tag, " element missing w:author attribute"),
            ValidationSeverity::Warning,
            part,
        );
    }
    let ghost after_author = issues_view(issues@);
    if inside_tag(nodes, k, "ins") || inside_tag(nodes, k, "del") {
        push_finding(
            issues,
            "redline-nested",
            join3("w:", tag, " is nested inside another tracked change"),
            ValidationSeverity::Error,
            part,
        );
    }
    let ghost after_nested = issues_view(issues@);
    if node_has_tag(n, "del") {
        let end = node_subtree_end(nodes, k);
        let has_del_text = first_tag(nodes, k + 1, end, "delText").is_some();
        let has_regular_t = run_text(nodes, k + 1, end);
        if has_regular_t && !has_del_text {
            push_finding(
                issues,
                "redline-del-uses-t",
                String::from_str("w:del contains w:t instead of w:delText"),
                ValidationSeverity::Warning,
                part,
            );
        }
    }
    assert(issues_view(issues@) =~= start + change_findings(nv, k as int, seen0, part@));
}

/// Checks comment range marker `k` named `tag` against its partners named `other`.
fn check_range(
    nodes: &Vec<XmlNode>,
    k: usize,
    tag: &str,
    other: &str,
    part: &str,
    issues: &mut Vec<ValidationIssue>,
)
    requires
        k < nodes.len(),
    ensures
        issues_view(final(issues)@) == issues_view(old(issues)@) + range_findings(
            nodes_view(nodes@),
            k as int,
            tag@,
            other@,
            part@,
        ),
{
    let ghost nv = nodes_view(nodes@);
    assert(nv[k as int] == nodes@[k as int]@);
    match find_attr(&nodes[k].attrs, "id") {
        Some(v) => {
            if !any_tag_with_id(nodes, other, v.as_str()) {
                let mut m: Vec<char> = Vec::new();
                push_str_chars(&mut m, tag);
                push_str_chars(&mut m, " id=");
                push_str_chars(&mut m, v.as_str());
                push_str_chars(&mut m, " has no matching ");
                push_str_chars(&mut m, other);
                assert(m@ =~= tag@ + " id="@ + v@ + " has no matching "@ + other@);
                push_finding(
                    issues,
                    "redline-unbalanced-comment-range",
                    string_from_chars(&m),
                    ValidationSeverity::Error,
                    part,
                );
            } else {
                assert(issues_view(issues@) =~= issues_view(old(issues)@) + Seq::<IssueView>::empty());
            }
        },
        None => {
            assert(issues_view(issues@) =~= issues_view(old(issues)@) + Seq::<IssueView>::empty());
        },
    }
}

/// Checks node `k` of a part.
fn check_node(
    nodes: &Vec<XmlNode>,
    k: usize,
    part: &str,
    seen: &mut HashSet<u64>,
    issues: &mut Vec<ValidationIssue>,
)
    requires
        k < nodes.len(),
        old(seen)@ == seen_ids(nodes_view(nodes@), k as int),
    ensures
        issues_view(final(issues)@) == issues_view(old(issues)@) + node_findings(
            nodes_view(nodes@),
            k as int,
            old(seen)@,
            part@,
        ),
        final(seen)@ == seen_ids(nodes_view(nodes@), k + 1),
{
    let ghost nv = nodes_view(nodes@);
    assert(nv[k as int] == nodes@[k as int]@);
    let n = &nodes[k];
    if node_has_tag(n, "ins") || node_has_tag(n, "del") {
        check_change(nodes, k, part, seen, issues);
    } else if node_has_tag(n, "commentRangeStart") {
        check_range(nodes, k, "commentRangeStart", "commentRangeEnd", part, issues);
    } else if node_has_tag(n, "commentRangeEnd") {
        check_range(nodes, k, "commentRangeEnd", "commentRangeStart", part, issues);
    } else {
        assert(issues_view(issues@) =~= issues_view(old(issues)@) + Seq::<IssueView>::empty());
    }
}

/// Checks one XML part; a part that does not parse is left to other validators.
fn check_part(part: &XmlPart, issues: &mut Vec<ValidationIssue>)
    ensures
        issues_view(final(issues)@) == issues_view(old(issues)@) + part_findings(part.path@, part.bytes@),
{
    let ghost start = issues_view(issues@);
    let text = lossy_string(part.bytes.as_slice());
    let doc = match parse_xml(text.as_str()) {
        Ok(d) => d,
        Err(_) => {
            assert(issues_view(issues@) =~= start + Seq::<IssueView>::empty());
            return;
        },
    };
    let ghost nv = nodes_view(doc.nodes@);
    assert(doc@.nodes == nv);
    let mut seen: HashSet<u64> = HashSet::new();
    let mut k: usize = 0;
    assert(issues_view(issues@) =~= start + findings_upto(nv, 0, part.path@));
    while k < doc.nodes.len()
        invariant
            0 <= k <= doc.nodes.len(),
            nv == nodes_view(doc.nodes@),
            seen@ == seen_ids(nv, k as int),
            issues_view(issues@) == start + findings_upto(nv, k as int, part.path@),
        decreases doc.nodes.len() - k,
    {
        check_node(&doc.nodes, k, part.path.as_str(), &mut seen, issues);
        k = k + 1;
        assert(issues_view(issues@) =~= start + findings_upto(nv, k as int, part.path@));
    }
}

/// Checks the tracked changes and comment ranges of every XML part of the package.
pub fn check_redline(package: &Package) -> (issues: Vec<ValidationIssue>)
    ensures
        issues_view(issues@) == redline_findings(package.xml_parts@),
{
    let mut issues: Vec<ValidationIssue> = Vec::new();
    let mut i: usize = 0;
    assert(package.xml_parts@.subrange(0, 0) =~= Seq::<XmlPart>::empty());
    assert(issues_view(issues@) =~= redline_findings(package.xml_parts@.subrange(0, 0)));
    while i < package.xml_parts.len()
        invariant
            0 <= i <= package.xml_parts.len(),
            issues_view(issues@) == redline_findings(package.xml_parts@.subrange(0, i as int)),
        decreases package.xml_parts.len() - i,
    {
        check_part(&package.xml_parts[i], &mut issues);
        assert(package.xml_parts@.subrange(0, i + 1).drop_last() =~= package.xml_parts@.subrange(0, i as int));
        i = i + 1;
    }
    assert(package.xml_parts@.subrange(0, i as int) =~= package.xml_parts@);
    issues
}

/// The same check as [`check_redline`], under its older name.
pub fn validate_redlines(package: &Package) -> (issues: Vec<ValidationIssue>)
    ensures
        issues_view(issues@) == redline_findings(package.xml_parts@),
{
    check_redline(package)
}

/// A finding on node `k` is among the findings on nodes `0 .. n`, `k < n`.
proof fn lemma_node_finding_kept(nodes: Seq<NodeView>, n: int, k: int, part: Seq<char>, e: IssueView)
    requires
        0 <= k < n,
        node_findings(nodes, k, seen_ids(nodes, k), part).contains(e),
    ensures
        findings_upto(nodes, n, part).contains(e),
    decreases n,
{
    let prev = findings_upto(nodes, n - 1, part);
    let last = node_findings(nodes, n - 1, seen_ids(nodes, n - 1), part);
    assert(findings_upto(nodes, n, part) == prev + last);
    if k < n - 1 {
        lemma_node_finding_kept(nodes, n - 1, k, part, e);
        let i = choose|i: int| 0 <= i < prev.len() && prev[i] == e;
        assert((prev + last)[i] == e);
    } else {
        let i = choose|i: int| 0 <= i < last.len() && last[i] == e;
        assert((prev + last)[prev.len() + i] == e);
    }
}

/// A finding on part `j` is among the findings on all the parts.
proof fn lemma_part_finding_kept(parts: Seq<XmlPart>, j: int, e: IssueView)
    requires
        0 <= j < parts.len(),
        part_findings(parts[j].path@, parts[j].bytes@).contains(e),
    ensures
        redline_findings(parts).contains(e),
    decreases parts.len(),
{
    let prev = redline_findings(parts.drop_last());
    let last = part_findings(parts.last().path@, parts.last().bytes@);
    assert(redline_findings(parts) == prev + last);
    if j < parts.len() - 1 {
        assert(parts.drop_last()[j] == parts[j]);
        lemma_part_finding_kept(parts.drop_last(), j, e);
        let i = choose|i: int| 0 <= i < prev.len() && prev[i] == e;
        assert((prev + last)[i] == e);
    } else {
        let i = choose|i: int| 0 <= i < last.len() && last[i] == e;
        assert((prev + last)[prev.len() + i] == e);
    }
}

/// Part `j` parses, and its node `k` is a `tag` marker whose `id` is `v`
/// while no `other` marker of the part carries that id.
pub open spec fn unmatched_marker(parts: Seq<XmlPart>, j: int, k: int, v: Seq<char>, tag: Seq<char>, other: Seq<char>) -> bool {
    &&& 0 <= j < parts.len()
    &&& match roxml_document(utf8_lossy(parts[j].bytes@)) {
        Ok(d) => {
            &&& 0 <= k < d.nodes.len()
            &&& has_tag(d.nodes[k], tag)
            &&& attr(d.nodes[k], "id"@) == Some(v)
            &&& forall|i: int|
                0 <= i < d.nodes.len() && #[trigger] has_tag(d.nodes[i], other) ==> !has_attr_pair(
                    d.nodes[i],
                    "id"@,
                    v,
                )
        },
        Err(_) => false,
    }
}

/// The unbalanced-range error for a `tag` marker with id `v` in `part`.
pub open spec fn unbalanced_issue(tag: Seq<char>, v: Seq<char>, other: Seq<char>, part: Seq<char>) -> IssueView {
    (
        "redline-unbalanced-comment-range"@,
        tag + " id="@ + v + " has no matching "@ + other,
        ValidationSeverity::Error,
        Some(part),
    )
}

proof fn lemma_unmatched_reported(parts: Seq<XmlPart>, j: int, k: int, v: Seq<char>, tag: Seq<char>, other: Seq<char>)
    requires
        unmatched_marker(parts, j, k, v, tag, other),
        !is_change_name(tag),
        (tag == "commentRangeStart"@ && other == "commentRangeEnd"@) || (tag == "commentRangeEnd"@ && other
            == "commentRangeStart"@),
    ensures
        redline_findings(parts).contains(unbalanced_issue(tag, v, other, parts[j].path@)),
{
    reveal_strlit("commentRangeStart");
    reveal_strlit("commentRangeEnd");
    let d = roxml_document(utf8_lossy(parts[j].bytes@))->Ok_0;
    let nodes = d.nodes;
    let part = parts[j].path@;
    let e = unbalanced_issue(tag, v, other, part);
    assert(!is_change(nodes[k]));
    if tag_with_id(nodes, other, v) {
        let i = choose|i: int| 0 <= i < nodes.len() && has_tag(#[trigger] nodes[i], other) && has_attr_pair(
            nodes[i],
            "id"@,
            v,
        );
        assert(false);
    }
    let nf = node_findings(nodes, k, seen_ids(nodes, k), part);
    assert(nf == finding("redline-unbalanced-comment-range"@, tag + " id="@ + v + " has no matching "@ + other, ValidationSeverity::Error, part));
    assert(nf[0] == e);
    lemma_node_finding_kept(nodes, nodes.len() as int, k, part, e);
    lemma_part_finding_kept(parts, j, e);
}

pub open spec fn is_change_name(name: Seq<char>) -> bool {
    name == "ins"@ || name == "del"@
}

/// A `commentRangeEnd` whose `id` no `commentRangeStart` of the same part
/// carries is reported: the findings hold the error
/// `redline-unbalanced-comment-range`, "commentRangeEnd id=ID has no
/// matching commentRangeStart", on that part.
pub proof fn law_unmatched_range_end_reported(parts: Seq<XmlPart>, j: int, k: int, v: Seq<char>)
    requires
        unmatched_marker(parts, j, k, v, "commentRangeEnd"@, "commentRangeStart"@),
    ensures
        redline_findings(parts).contains(
            (
                "redline-unbalanced-comment-range"@,
                "commentRangeEnd"@ + " id="@ + v + " has no matching "@ + "commentRangeStart"@,
                ValidationSeverity::Error,
                Some(parts[j].path@),
            ),
        ),
{
    reveal_strlit("commentRangeEnd");
    reveal_strlit("ins");
    reveal_strlit("del");
    lemma_unmatched_reported(parts, j, k, v, "commentRangeEnd"@, "commentRangeStart"@);
}

/// A `commentRangeStart` whose `id` no `commentRangeEnd` of the same part
/// carries is reported: the findings hold the error
/// `redline-unbalanced-comment-range`, "commentRangeStart id=ID has no
/// matching commentRangeEnd", on that part.
pub proof fn law_unmatched_range_start_reported(parts: Seq<XmlPart>, j: int, k: int, v: Seq<char>)
    requires
        unmatched_marker(parts, j, k, v, "commentRangeStart"@, "commentRangeEnd"@),
    ensures
        redline_findings(parts).contains(
            (
                "redline-unbalanced-comment-range"@,
                "commentRangeStart"@ + " id="@ + v + " has no matching "@ + "commentRangeEnd"@,
                ValidationSeverity::Error,
                Some(parts[j].path@),
            ),
        ),
{
    reveal_strlit("commentRangeStart");
    reveal_strlit("ins");
    reveal_strlit("del");
    lemma_unmatched_reported(parts, j, k, v, "commentRangeStart"@, "commentRangeEnd"@);
}

} // verus!
