//! Association lists keyed by strings: each key bound at most once, in the
//! order the keys were first bound.

use vstd::prelude::*;

use crate::bytes::str_eq;

verus! {

/// The value bound to `key`.
pub open spec fn assoc_get<V>(m: Seq<(Seq<char>, V)>, key: Seq<char>) -> Option<V>
    decreases m.len(),
{
    if m.len() == 0 {
        None
    } else if m[0].0 == key {
        Some(m[0].1)
    } else {
        assoc_get(m.drop_first(), key)
    }
}

/// `m` with `key` bound to `value`, in place when already bound.
pub open spec fn assoc_insert<V>(m: Seq<(Seq<char>, V)>, key: Seq<char>, value: V) -> Seq<(Seq<char>, V)>
    decreases m.len(),
{
    if m.len() == 0 {
        seq![(key, value)]
    } else if m[0].0 == key {
        m.update(0, (key, value))
    } else {
        seq![m[0]] + assoc_insert(m.drop_first(), key, value)
    }
}

/// Inserting where the key is first bound at `i` rebinds it there.
pub proof fn lemma_assoc_insert_at<V>(m: Seq<(Seq<char>, V)>, key: Seq<char>, value: V, i: int)
    requires
        0 <= i < m.len(),
        m[i].0 == key,
        forall|j: int| 0 <= j < i ==> (#[trigger] m[j]).0 != key,
    ensures
        assoc_insert(m, key, value) == m.update(i, (key, value)),
        assoc_get(m, key) == Some(m[i].1),
    decreases i,
{
    if i > 0 {
        assert forall|j: int| 0 <= j < i - 1 implies (#[trigger] m.drop_first()[j]).0 != key by {
            assert(m.drop_first()[j] == m[j + 1]);
        }
        lemma_assoc_insert_at(m.drop_first(), key, value, i - 1);
        assert(seq![m[0]] + m.drop_first().update(i - 1, (key, value)) =~= m.update(i, (key, value)));
    }
}

/// Inserting an unbound key appends it.
pub proof fn lemma_assoc_insert_absent<V>(m: Seq<(Seq<char>, V)>, key: Seq<char>, value: V)
    requires
        forall|j: int| 0 <= j < m.len() ==> (#[trigger] m[j]).0 != key,
    ensures
        assoc_insert(m, key, value) == m.push((key, value)),
        assoc_get(m, key) is None,
    decreases m.len(),
{
    if m.len() > 0 {
        assert forall|j: int| 0 <= j < m.len() - 1 implies (#[trigger] m.drop_first()[j]).0 != key by {
            assert(m.drop_first()[j] == m[j + 1]);
        }
        lemma_assoc_insert_absent(m.drop_first(), key, value);
        assert(seq![m[0]] + m.drop_first().push((key, value)) =~= m.push((key, value)));
    }
}

pub open spec fn string_pairs_view(v: Seq<(String, String)>) -> Seq<(Seq<char>, Seq<char>)> {
    v.map_values(|p: (String, String)| (p.0@, p.1@))
}

/// Binds `key` to `value` and gives back what it was bound to before.
pub fn assoc_put(m: &mut Vec<(String, String)>, key: String, value: String) -> (prev: Option<String>)
    ensures
        string_pairs_view(final(m)@) == assoc_insert(string_pairs_view(old(m)@), key@, value@),
        match prev {
            Some(p) => assoc_get(string_pairs_view(old(m)@), key@) == Some(p@),
            None => assoc_get(string_pairs_view(old(m)@), key@) is None,
        },
{
    let ghost old_view = string_pairs_view(m@);
    let mut i: usize = 0;
    while i < m.len()
        invariant
            0 <= i <= m.len(),
            old_view == string_pairs_view(m@),
            old_view == string_pairs_view(old(m)@),
            forall|j: int| 0 <= j < i ==> (#[trigger] old_view[j]).0 != key@,
        decreases m.len() - i,
    {
        if str_eq(m[i].0.as_str(), key.as_str()) {
            assert(old_view[i as int].0 == key@);
            proof {
                lemma_assoc_insert_at(old_view, key@, value@, i as int);
            }
            let prev = m[i].1.clone();
            m.set(i, (key, value));
            assert(string_pairs_view(m@) =~= old_view.update(i as int, (key@, value@)));
            return Some(prev);
        }
        i = i + 1;
    }
    proof {
        lemma_assoc_insert_absent(old_view, key@, value@);
    }
    m.push((key, value));
    assert(string_pairs_view(m@) =~= old_view.push((key@, value@)));
    None
}

} // verus!
