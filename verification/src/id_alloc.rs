//! Allocation of fresh numeric ids for revision and comment markup.

use std::collections::HashSet;

use vstd::prelude::*;
use vstd::utf8::{decode_utf8, valid_utf8};

use crate::bytes::utf8_str;
use crate::package::{Package, XmlPart};
use crate::text::chars_of;
use crate::units::{is_digit, parse_unsigned, parse_unsigned_chars};
use crate::xml::{parse_xml, roxml_document, AttrView, NodeView, XmlAttr, XmlNode};

verus! {

broadcast use vstd::std_specs::hash::group_hash_axioms;

/// The ids in use, and the candidate from which the next one is sought.
pub struct IdAllocator {
    used_ids: HashSet<u64>,
    next_id: u64,
}

/// Ids must stay below this bound.
pub open spec fn id_limit() -> u64 {
    0x7FFF_FFFF
}

impl IdAllocator {
    pub closed spec fn used(&self) -> Set<u64> {
        self.used_ids@
    }

    pub closed spec fn candidate(&self) -> u64 {
        self.next_id
    }

    /// An allocator with the given ids in use, searching from `next_id`.
    pub fn with_state(used_ids: HashSet<u64>, next_id: u64) -> (a: IdAllocator)
        ensures
            a.used() == used_ids@,
            a.candidate() == next_id,
    {
        IdAllocator { used_ids, next_id }
    }

    /// An allocator with the given ids in use, searching from one past the
    /// largest of them (from 1 when there are none; from `u64::MAX` when that
    /// id is in use).
    pub fn from_ids(ids: &Vec<u64>) -> (a: IdAllocator)
        ensures
            a.used() == ids@.to_set(),
            ids.len() == 0 ==> a.candidate() == 1,
            ids@.contains(u64::MAX) ==> a.candidate() == u64::MAX,
            ids.len() > 0 && !ids@.contains(u64::MAX) ==> ids@.contains((a.candidate() - 1) as u64)
                && forall|i: int| 0 <= i < ids.len() ==> ids@[i] < a.candidate(),
    {
        let mut used: HashSet<u64> = HashSet::new();
        let mut max: Option<u64> = None;
        let mut i: usize = 0;
        while i < ids.len()
            invariant
                0 <= i <= ids.len(),
                used@ == ids@.subrange(0, i as int).to_set(),
                i == 0 <==> max is None,
                max matches Some(m) ==> ids@.subrange(0, i as int).contains(m) && forall|k: int|
                    0 <= k < i ==> ids@[k] <= m,
            decreases ids.len() - i,
        {
            let v = ids[i];
            used.insert(v);
            let ghost pre = ids@.subrange(0, i as int);
            assert(ids@.subrange(0, i + 1) =~= pre.push(v));
            proof {
                pre.lemma_push_to_set_commute(v);
            }
            max = match max {
                Some(m) => if v > m {
                    Some(v)
                } else {
                    Some(m)
                },
                None => Some(v),
            };
            i = i + 1;
            proof {
                let cur = ids@.subrange(0, i as int);
                assert(cur[i - 1] == v);
                match max {
                    Some(m) => {
                        if m == v {
                            assert(cur.contains(v));
                        } else {
                            assert(pre.contains(m));
                            let k = choose|k: int| 0 <= k < pre.len() && pre[k] == m;
                            assert(cur[k] == m);
                        }
                    },
                    None => {},
                }
            }
        }
        assert(ids@.subrange(0, ids.len() as int) =~= ids@);
        let next_id = match max {
            Some(m) => if m < u64::MAX {
                m + 1
            } else {
                m
            },
            None => 1,
        };
        proof {
            if ids@.contains(u64::MAX) {
                let k = choose|k: int| 0 <= k < ids.len() && ids@[k] == u64::MAX;
                assert(ids@[k] <= max.unwrap());
            }
        }
        IdAllocator { used_ids: used, next_id }
    }

    /// An allocator with every id of the package's XML parts in use (see
    /// `package_ids`), searching from one past the largest of them.
    pub fn from_package(package: &Package) -> (a: IdAllocator)
        ensures
            a.used() == package_ids(package.xml_parts@),
            package_ids(package.xml_parts@) == Set::<u64>::empty() ==> a.candidate() == 1,
            package_ids(package.xml_parts@).contains(u64::MAX) ==> a.candidate() == u64::MAX,
            package_ids(package.xml_parts@) != Set::<u64>::empty() && !package_ids(package.xml_parts@).contains(
                u64::MAX,
            ) ==> package_ids(package.xml_parts@).contains((a.candidate() - 1) as u64) && forall|v: u64|
                package_ids(package.xml_parts@).contains(v) ==> v < a.candidate(),
    {
        let parts = &package.xml_parts;
        let mut found: Vec<u64> = Vec::new();
        let mut i: usize = 0;
        while i < parts.len()
            invariant
                0 <= i <= parts.len(),
                found@.to_set() == package_ids(parts@.subrange(0, i as int)),
            decreases parts.len() - i,
        {
            let ghost before = found@.to_set();
            push_part_ids(&parts[i], &mut found);
            assert(parts@.subrange(0, i + 1).drop_last() =~= parts@.subrange(0, i as int));
            i = i + 1;
        }
        assert(parts@.subrange(0, i as int) =~= parts@);
        let a = IdAllocator::from_ids(&found);
        proof {
            let ids = package_ids(parts@);
            if found.len() == 0 {
                assert(found@.to_set() =~= Set::<u64>::empty());
            } else {
                assert(found@.contains(found@[0]));
                assert(ids.contains(found@[0]));
                if !ids.contains(u64::MAX) {
                    assert forall|v: u64| ids.contains(v) implies v < a.candidate() by {
                        let k = choose|k: int| 0 <= k < found.len() && found@[k] == v;
                    }
                }
            }
        }
        a
    }

    /// Returns the smallest id at or above the candidate that is not in use,
    /// records it as used and moves the candidate past it.
    pub fn next(&mut self) -> (id: u64)
        requires
            exists|v: u64| old(self).candidate() <= v < id_limit() && !#[trigger] old(self).used().contains(v),
        ensures
            old(self).candidate() <= id < id_limit(),
            !old(self).used().contains(id),
            forall|v: u64| old(self).candidate() <= v < id ==> #[trigger] old(self).used().contains(v),
            final(self).used() == old(self).used().insert(id),
            final(self).candidate() == id + 1,
            next_step(*old(self), id, *final(self)),
    {
        let ghost start = self.next_id;
        let ghost free = choose|v: u64| old(self).candidate() <= v < id_limit() && !old(self).used().contains(v);
        while self.used_ids.contains(&self.next_id)
            invariant
                self.used_ids@ == old(self).used(),
                start == old(self).candidate(),
                start <= self.next_id <= free,
                free < id_limit(),
                !self.used_ids@.contains(free),
                forall|v: u64| start <= v < self.next_id ==> #[trigger] self.used_ids@.contains(v),
            decreases free - self.next_id,
        {
            self.next_id = self.next_id + 1;
        }
        let id = self.next_id;
        self.used_ids.insert(id);
        self.next_id = self.next_id + 1;
        id
    }
}

/// What one call of `next` does: it takes the smallest unused id at or
/// above the candidate, records it as used and moves the candidate past it.
pub open spec fn next_step(a: IdAllocator, id: u64, b: IdAllocator) -> bool {
    &&& a.candidate() <= id < id_limit()
    &&& !a.used().contains(id)
    &&& forall|v: u64| a.candidate() <= v < id ==> #[trigger] a.used().contains(v)
    &&& b.used() == a.used().insert(id)
    &&& b.candidate() == id + 1
}

/// Two calls of `next` in a row give two new ids, the second larger than
/// the first, and neither was in use before.
pub proof fn law_ids_never_repeat(a0: IdAllocator, id1: u64, a1: IdAllocator, id2: u64, a2: IdAllocator)
    requires
        next_step(a0, id1, a1),
        next_step(a1, id2, a2),
    ensures
        id1 < id2,
        !a0.used().contains(id1),
        !a0.used().contains(id2),
        a2.used() == a0.used().insert(id1).insert(id2),
{
}

/// An allocator made from a package never hands out an id that the
/// package already uses.
pub proof fn law_package_ids_avoided(parts: Seq<XmlPart>, a: IdAllocator, id: u64, b: IdAllocator)
    requires
        a.used() == package_ids(parts),
        next_step(a, id, b),
    ensures
        !package_ids(parts).contains(id),
        b.used() == package_ids(parts).insert(id),
{
}

/// The attribute names whose values hold ids.
pub open spec fn is_id_name(name: Seq<char>) -> bool {
    name == "id"@ || name == "Id"@ || name == "commentId"@
}

/// How many ASCII digits end `s`.
pub open spec fn trailing_digits(s: Seq<char>) -> nat
    decreases s.len(),
{
    if s.len() > 0 && is_digit(s.last()) {
        1 + trailing_digits(s.drop_last())
    } else {
        0
    }
}

/// The id an attribute value stands for: the value itself when it parses as
/// a `u64`, else the digits that end it (`rId3` stands for 3), when they
/// parse as a `u64`.
pub open spec fn id_number(v: Seq<char>) -> Option<u64> {
    match parse_unsigned(v, u64::MAX as int) {
        Some(n) => Some(n as u64),
        None => {
            let k = trailing_digits(v);
            if k > 0 {
                match parse_unsigned(v.subrange(v.len() - k, v.len() as int), u64::MAX as int) {
                    Some(n) => Some(n as u64),
                    None => None,
                }
            } else {
                None
            }
        },
    }
}

/// The ids that the id-bearing attributes among `attrs` stand for.
pub open spec fn attrs_ids(attrs: Seq<AttrView>) -> Set<u64>
    decreases attrs.len(),
{
    if attrs.len() == 0 {
        Set::empty()
    } else {
        let a = attrs.last();
        let prev = attrs_ids(attrs.drop_last());
        if is_id_name(a.name) && id_number(a.value) is Some {
            prev.insert(id_number(a.value).unwrap())
        } else {
            prev
        }
    }
}

/// The ids on the elements among `nodes`.
pub open spec fn nodes_ids(nodes: Seq<NodeView>) -> Set<u64>
    decreases nodes.len(),
{
    if nodes.len() == 0 {
        Set::empty()
    } else {
        let n = nodes.last();
        nodes_ids(nodes.drop_last()).union(if n.is_element { attrs_ids(n.attrs) } else { Set::empty() })
    }
}

/// The ids in a part: none unless it is UTF-8 that `roxmltree` parses.
pub open spec fn part_ids(bytes: Seq<u8>) -> Set<u64> {
    if valid_utf8(bytes) {
        match roxml_document(decode_utf8(bytes)) {
            Ok(d) => nodes_ids(d.nodes),
            Err(_) => Set::empty(),
        }
    } else {
        Set::empty()
    }
}

/// The ids in all the given parts.
pub open spec fn package_ids(parts: Seq<XmlPart>) -> Set<u64>
    decreases parts.len(),
{
    if parts.len() == 0 {
        Set::empty()
    } else {
        package_ids(parts.drop_last()).union(part_ids(parts.last().bytes@))
    }
}

/// The id an attribute value stands for.
fn id_number_of(v: &str) -> (r: Option<u64>)
    ensures
        r == id_number(v@),
{
    let cs = chars_of(v);
    let len = cs.len();
    match parse_unsigned_chars(&cs, 0, len, u64::MAX) {
        Some(n) => {
            assert(cs@.subrange(0, len as int) =~= v@);
            Some(n)
        },
        None => {
            assert(cs@.subrange(0, len as int) =~= v@);
            let mut k = len;
            while k > 0 && '0' <= cs[k - 1] && cs[k - 1] <= '9'
                invariant
                    0 <= k <= len,
                    len == cs.len(),
                    cs@ == v@,
                    trailing_digits(v@) == (len - k) + trailing_digits(v@.subrange(0, k as int)),
                decreases k,
            {
                assert(v@.subrange(0, k as int).drop_last() =~= v@.subrange(0, k - 1));
                k = k - 1;
            }
            assert(trailing_digits(v@.subrange(0, k as int)) == 0);
            if k < len {
                parse_unsigned_chars(&cs, k, len, u64::MAX)
            } else {
                None
            }
        },
    }
}

/// Appends the ids that the id-bearing attributes among `attrs` stand for.
fn push_attr_ids(attrs: &Vec<XmlAttr>, found: &mut Vec<u64>)
    ensures
        final(found)@.to_set() == old(found)@.to_set().union(attrs_ids(attrs@.map_values(|a: XmlAttr| a@))),
{
    let ghost view = attrs@.map_values(|a: XmlAttr| a@);
    let ghost start = found@.to_set();
    let mut i: usize = 0;
    assert(start.union(attrs_ids(view.subrange(0, 0))) =~= start);
    while i < attrs.len()
        invariant
            0 <= i <= attrs.len(),
            view == attrs@.map_values(|a: XmlAttr| a@),
            found@.to_set() == start.union(attrs_ids(view.subrange(0, i as int))),
        decreases attrs.len() - i,
    {
        let a = &attrs[i];
        assert(view.subrange(0, i + 1).drop_last() =~= view.subrange(0, i as int));
        assert(view.subrange(0, i + 1).last() == a@);
        let named = crate::bytes::str_eq(a.name.as_str(), "id") || crate::bytes::str_eq(a.name.as_str(), "Id")
            || crate::bytes::str_eq(a.name.as_str(), "commentId");
        if named {
            match id_number_of(a.value.as_str()) {
                Some(n) => {
                    let ghost pre = found@;
                    found.push(n);
                    proof {
                        pre.lemma_push_to_set_commute(n);
                    }
                    assert(found@.to_set() =~= start.union(attrs_ids(view.subrange(0, i + 1))));
                },
                None => {},
            }
        }
        i = i + 1;
    }
    assert(view.subrange(0, i as int) =~= view);
}

/// Appends the ids in a part.
fn push_part_ids(part: &XmlPart, found: &mut Vec<u64>)
    ensures
        final(found)@.to_set() == old(found)@.to_set().union(part_ids(part.bytes@)),
{
    let ghost start = found@.to_set();
    let text = match utf8_str(part.bytes.as_slice()) {
        Some(t) => t,
        None => {
            assert(start.union(Set::empty()) =~= start);
            return;
        },
    };
    let doc = match parse_xml(text) {
        Ok(d) => d,
        Err(_) => {
            assert(start.union(Set::empty()) =~= start);
            return;
        },
    };
    let nodes = &doc.nodes;
    let ghost view = nodes@.map_values(|n: XmlNode| n@);
    let mut i: usize = 0;
    assert(start.union(nodes_ids(view.subrange(0, 0))) =~= start);
    while i < nodes.len()
        invariant
            0 <= i <= nodes.len(),
            view == nodes@.map_values(|n: XmlNode| n@),
            found@.to_set() == start.union(nodes_ids(view.subrange(0, i as int))),
        decreases nodes.len() - i,
    {
        let ghost before = found@.to_set();
        assert(view.subrange(0, i + 1).drop_last() =~= view.subrange(0, i as int));
        assert(view.subrange(0, i + 1).last() == nodes[i as int]@);
        if nodes[i].is_element {
            push_attr_ids(&nodes[i].attrs, found);
        }
        assert(found@.to_set() =~= start.union(nodes_ids(view.subrange(0, i + 1))));
        i = i + 1;
    }
    assert(view.subrange(0, i as int) =~= view);
}

} // verus!
