//! In-memory parts of a document package, keyed by their path in the archive.

use vstd::prelude::*;

use crate::bytes::str_eq;

verus! {

/// The content of one part.
pub enum PartData {
    Xml(Vec<u8>),
    Binary(Vec<u8>),
}

/// The parts of a package under edit. A path may be written more than once;
/// its first entry is the one that counts.
pub struct PartGraph {
    parts: Vec<(String, PartData)>,
}

/// The data stored under `path`: that of the first entry with this path.
pub open spec fn lookup(parts: Seq<(String, PartData)>, path: Seq<char>) -> Option<PartData>
    decreases parts.len(),
{
    if parts.len() == 0 {
        None
    } else if parts[0].0@ == path {
        Some(parts[0].1)
    } else {
        lookup(parts.drop_first(), path)
    }
}

proof fn lemma_lookup_prefix(parts: Seq<(String, PartData)>, path: Seq<char>, i: int)
    requires
        0 <= i <= parts.len(),
        forall|j: int| 0 <= j < i ==> (#[trigger] parts[j]).0@ != path,
    ensures
        lookup(parts, path) == lookup(parts.subrange(i, parts.len() as int), path),
    decreases i,
{
    if i > 0 {
        assert(parts.drop_first().subrange(i - 1, parts.drop_first().len() as int)
            =~= parts.subrange(i, parts.len() as int));
        lemma_lookup_prefix(parts.drop_first(), path, i - 1);
    } else {
        assert(parts.subrange(0, parts.len() as int) =~= parts);
    }
}

proof fn lemma_lookup_set(
    parts: Seq<(String, PartData)>,
    i: int,
    entry: (String, PartData),
    key: Seq<char>,
)
    requires
        0 <= i < parts.len(),
        entry.0@ == parts[i].0@,
        forall|j: int| 0 <= j < i ==> (#[trigger] parts[j]).0@ != parts[i].0@,
    ensures
        lookup(parts.update(i, entry), key) == if key == parts[i].0@ {
            Some(entry.1)
        } else {
            lookup(parts, key)
        },
    decreases i,
{
    let u = parts.update(i, entry);
    if i > 0 {
        assert(u.drop_first() =~= parts.drop_first().update(i - 1, entry));
        assert(parts[0].0@ != parts[i].0@);
        assert(u[0] == parts[0]);
        assert forall|j: int| 0 <= j < i - 1 implies (#[trigger] parts.drop_first()[j]).0@
            != parts.drop_first()[i - 1].0@ by {
            assert(parts.drop_first()[j] == parts[j + 1]);
        }
        lemma_lookup_set(parts.drop_first(), i - 1, entry, key);
    } else {
        assert(u.drop_first() =~= parts.drop_first());
        assert(u[0] == entry);
    }
}

proof fn lemma_lookup_push(parts: Seq<(String, PartData)>, entry: (String, PartData), key: Seq<char>)
    requires
        lookup(parts, entry.0@) is None,
    ensures
        lookup(parts.push(entry), key) == if key == entry.0@ {
            Some(entry.1)
        } else {
            lookup(parts, key)
        },
    decreases parts.len(),
{
    let pp = parts.push(entry);
    if parts.len() > 0 {
        assert(pp.drop_first() =~= parts.drop_first().push(entry));
        assert(pp[0] == parts[0]);
        assert(parts[0].0@ != entry.0@);
        lemma_lookup_push(parts.drop_first(), entry, key);
    } else {
        assert(pp.drop_first() =~= parts);
        assert(pp[0] == entry);
    }
}

impl PartGraph {
    /// The data stored under `path`.
    pub closed spec fn part(&self, path: Seq<char>) -> Option<PartData> {
        lookup(self.parts@, path)
    }

    /// The bytes of the XML part at `path`, if there is one.
    pub open spec fn xml(&self, path: Seq<char>) -> Option<Seq<u8>> {
        match self.part(path) {
            Some(PartData::Xml(b)) => Some(b@),
            _ => None,
        }
    }

    /// An empty graph.
    pub fn new() -> (g: PartGraph)
        ensures
            forall|p: Seq<char>| g.part(p) is None,
    {
        PartGraph { parts: Vec::new() }
    }

    fn index_of(&self, path: &str) -> (r: Option<usize>)
        ensures
            match r {
                Some(i) => i < self.parts.len() && self.parts@[i as int].0@ == path@ && forall|
                    j: int,
                | 0 <= j < i ==> (#[trigger] self.parts@[j]).0@ != path@,
                None => self.part(path@) is None,
            },
    {
        let mut i: usize = 0;
        while i < self.parts.len()
            invariant
                0 <= i <= self.parts.len(),
                forall|j: int| 0 <= j < i ==> (#[trigger] self.parts@[j]).0@ != path@,
            decreases self.parts.len() - i,
        {
            if str_eq(self.parts[i].0.as_str(), path) {
                return Some(i);
            }
            i = i + 1;
        }
        proof {
            lemma_lookup_prefix(self.parts@, path@, i as int);
            assert(self.parts@.subrange(i as int, self.parts.len() as int).len() == 0);
        }
        None
    }

    /// The bytes of the XML part at `path`; `None` when the path is absent or
    /// holds a binary part.
    pub fn xml_bytes(&self, path: &str) -> (r: Option<&[u8]>)
        ensures
            match r {
                Some(b) => self.xml(path@) == Some(b@),
                None => self.xml(path@) is None,
            },
    {
        match self.index_of(path) {
            Some(i) => {
                proof {
                    lemma_lookup_prefix(self.parts@, path@, i as int);
                }
                match &self.parts[i].1 {
                    PartData::Xml(b) => Some(b.as_slice()),
                    PartData::Binary(_) => None,
                }
            },
            None => None,
        }
    }

    fn put(&mut self, path: &str, data: PartData)
        ensures
            forall|p: Seq<char>| #[trigger]
                final(self).part(p) == if p == path@ {
                    Some(data)
                } else {
                    old(self).part(p)
                },
    {
        match self.index_of(path) {
            Some(i) => {
                let ghost old_parts = self.parts@;
                let key = self.parts[i].0.clone();
                self.parts.set(i, (key, data));
                proof {
                    assert forall|p: Seq<char>| #[trigger]
                        lookup(self.parts@, p) == if p == path@ {
                            Some(data)
                        } else {
                            lookup(old_parts, p)
                        } by {
                        lemma_lookup_set(old_parts, i as int, self.parts@[i as int], p);
                    }
                }
            },
            None => {
                let ghost old_parts = self.parts@;
                let key = String::from_str(path);
                self.parts.push((key, data));
                proof {
                    assert forall|p: Seq<char>| #[trigger]
                        lookup(self.parts@, p) == if p == path@ {
                            Some(data)
                        } else {
                            lookup(old_parts, p)
                        } by {
                        lemma_lookup_push(old_parts, self.parts@.last(), p);
                        assert(self.parts@ =~= old_parts.push(self.parts@.last()));
                    }
                }
            },
        }
    }

    /// Stores `bytes` as the XML part at `path`, replacing what was there.
    pub fn set_xml(&mut self, path: &str, bytes: Vec<u8>)
        ensures
            forall|p: Seq<char>| #[trigger]
                final(self).part(p) == if p == path@ {
                    Some(PartData::Xml(bytes))
                } else {
                    old(self).part(p)
                },
            final(self).xml(path@) == Some(bytes@),
    {
        self.put(path, PartData::Xml(bytes));
    }

    /// Stores `bytes` as the binary part at `path`, replacing what was there.
    pub fn set_binary(&mut self, path: &str, bytes: Vec<u8>)
        ensures
            forall|p: Seq<char>| #[trigger]
                final(self).part(p) == if p == path@ {
                    Some(PartData::Binary(bytes))
                } else {
                    old(self).part(p)
                },
    {
        self.put(path, PartData::Binary(bytes));
    }
}

} // verus!
