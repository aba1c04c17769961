//! A document package as read from its archive: the inventory of its parts
//! and the bytes of its XML parts.

use vstd::prelude::*;

use crate::bytes::str_eq;

verus! {

/// One entry of the archive.
pub struct PartEntry {
    pub path: String,
    pub sha256: String,
    pub is_xml: bool,
    pub size_bytes: u64,
}

/// All entries of the archive.
pub struct PartInventory {
    pub entries: Vec<PartEntry>,
}

/// The bytes of one XML part.
pub struct XmlPart {
    pub path: String,
    pub bytes: Vec<u8>,
}

/// An opened package.
pub struct Package {
    pub path: String,
    pub source_hash: String,
    pub inventory: PartInventory,
    pub xml_parts: Vec<XmlPart>,
    pub binary_parts: Vec<String>,
}

impl PartInventory {
    /// Some entry of the inventory has this path.
    pub open spec fn has(&self, path: Seq<char>) -> bool {
        exists|i: int| 0 <= i < self.entries.len() && (#[trigger] self.entries@[i]).path@ == path
    }

    /// Whether an entry with this path exists.
    pub fn contains_key(&self, path: &str) -> (r: bool)
        ensures
            r == self.has(path@),
    {
        let mut i: usize = 0;
        while i < self.entries.len()
            invariant
                0 <= i <= self.entries.len(),
                forall|k: int| 0 <= k < i ==> (#[trigger] self.entries@[k]).path@ != path@,
            decreases self.entries.len() - i,
        {
            if str_eq(self.entries[i].path.as_str(), path) {
                return true;
            }
            i = i + 1;
        }
        false
    }
}

/// The bytes of the first XML part with this path.
pub open spec fn xml_lookup(parts: Seq<XmlPart>, path: Seq<char>) -> Option<Seq<u8>>
    decreases parts.len(),
{
    if parts.len() == 0 {
        None
    } else if parts[0].path@ == path {
        Some(parts[0].bytes@)
    } else {
        xml_lookup(parts.drop_first(), path)
    }
}

proof fn lemma_xml_lookup_prefix(parts: Seq<XmlPart>, path: Seq<char>, i: int)
    requires
        0 <= i <= parts.len(),
        forall|j: int| 0 <= j < i ==> (#[trigger] parts[j]).path@ != path,
    ensures
        xml_lookup(parts, path) == xml_lookup(parts.subrange(i, parts.len() as int), path),
    decreases i,
{
    if i > 0 {
        assert(parts.drop_first().subrange(i - 1, parts.drop_first().len() as int) =~= parts.subrange(
            i,
            parts.len() as int,
        ));
        lemma_xml_lookup_prefix(parts.drop_first(), path, i - 1);
    } else {
        assert(parts.subrange(0, parts.len() as int) =~= parts);
    }
}

impl Package {
    /// The bytes of the XML part at `path`.
    pub open spec fn xml(&self, path: Seq<char>) -> Option<Seq<u8>> {
        xml_lookup(self.xml_parts@, path)
    }

    /// The bytes of the XML part at `path`, if it was read.
    pub fn xml_part(&self, path: &str) -> (r: Option<&Vec<u8>>)
        ensures
            match r {
                Some(b) => self.xml(path@) == Some(b@),
                None => self.xml(path@) is None,
            },
    {
        let mut i: usize = 0;
        while i < self.xml_parts.len()
            invariant
                0 <= i <= self.xml_parts.len(),
                forall|k: int| 0 <= k < i ==> (#[trigger] self.xml_parts@[k]).path@ != path@,
            decreases self.xml_parts.len() - i,
        {
            if str_eq(self.xml_parts[i].path.as_str(), path) {
                proof {
                    lemma_xml_lookup_prefix(self.xml_parts@, path@, i as int);
                }
                return Some(&self.xml_parts[i].bytes);
            }
            i = i + 1;
        }
        proof {
            lemma_xml_lookup_prefix(self.xml_parts@, path@, i as int);
        }
        None
    }
}

} // verus!
