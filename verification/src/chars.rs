//! Searching and splitting character sequences.

use vstd::prelude::*;

verus! {

/// `needle` occurs in `hay` at index `i`.
pub open spec fn occurs_at(hay: Seq<char>, needle: Seq<char>, i: int) -> bool {
    0 <= i && i + needle.len() <= hay.len() && hay.subrange(i, i + needle.len()) == needle
}

/// The first index at or after `i` where `needle` occurs.
pub open spec fn occurrence_from(hay: Seq<char>, needle: Seq<char>, i: int) -> Option<int>
    decreases hay.len() + 1 - i,
{
    if i < 0 || i + needle.len() > hay.len() {
        None
    } else if occurs_at(hay, needle, i) {
        Some(i)
    } else {
        occurrence_from(hay, needle, i + 1)
    }
}

/// The first occurrence of `needle` in `hay`.
pub open spec fn first_occurrence(hay: Seq<char>, needle: Seq<char>) -> Option<int> {
    occurrence_from(hay, needle, 0)
}

/// `needle` occurs somewhere in `hay`.
pub open spec fn contains_seq(hay: Seq<char>, needle: Seq<char>) -> bool {
    first_occurrence(hay, needle) is Some
}

proof fn lemma_occurrence_none(hay: Seq<char>, needle: Seq<char>, i: int)
    requires
        0 <= i,
        forall|j: int| i <= j ==> !occurs_at(hay, needle, j),
    ensures
        occurrence_from(hay, needle, i) is None,
    decreases hay.len() + 1 - i,
{
    if i + needle.len() <= hay.len() {
        lemma_occurrence_none(hay, needle, i + 1);
    }
}

pub proof fn lemma_occurrence_skip(hay: Seq<char>, needle: Seq<char>, i: int, k: int)
    requires
        0 <= i <= k,
        forall|j: int| i <= j < k ==> !occurs_at(hay, needle, j),
    ensures
        occurrence_from(hay, needle, i) == occurrence_from(hay, needle, k),
    decreases k - i,
{
    if i < k {
        lemma_occurrence_skip(hay, needle, i + 1, k);
    }
}

/// Whether `needle` occurs in `hay` at `i`.
pub fn chars_occur_at(hay: &Vec<char>, needle: &Vec<char>, i: usize) -> (r: bool)
    ensures
        r == occurs_at(hay@, needle@, i as int),
{
    if i > hay.len() || needle.len() > hay.len() - i {
        return false;
    }
    let mut k: usize = 0;
    while k < needle.len()
        invariant
            i + needle.len() <= hay.len(),
            0 <= k <= needle.len(),
            forall|j: int| 0 <= j < k ==> hay@[i + j] == needle@[j],
        decreases needle.len() - k,
    {
        if hay[i + k] != needle[k] {
            assert(hay@.subrange(i as int, i + needle.len())[k as int] != needle@[k as int]);
            return false;
        }
        k = k + 1;
    }
    assert(hay@.subrange(i as int, i + needle.len()) =~= needle@);
    true
}

/// The first occurrence of `needle` in `hay`.
pub fn find_chars(hay: &Vec<char>, needle: &Vec<char>) -> (r: Option<usize>)
    ensures
        match r {
            Some(i) => first_occurrence(hay@, needle@) == Some(i as int) && occurs_at(hay@, needle@, i as int),
            None => first_occurrence(hay@, needle@) is None,
        },
{
    if needle.len() > hay.len() {
        proof {
            lemma_occurrence_none(hay@, needle@, 0);
        }
        return None;
    }
    if needle.len() == 0 {
        assert(hay@.subrange(0, 0) =~= needle@);
        return Some(0);
    }
    let last = hay.len() - needle.len();
    let mut i: usize = 0;
    while i <= last
        invariant
            last + needle.len() == hay.len(),
            needle.len() >= 1,
            0 <= i <= last + 1,
            forall|j: int| 0 <= j < i ==> !occurs_at(hay@, needle@, j),
        decreases last + 1 - i,
    {
        if chars_occur_at(hay, needle, i) {
            proof {
                lemma_occurrence_skip(hay@, needle@, 0, i as int);
            }
            return Some(i);
        }
        i = i + 1;
    }
    proof {
        lemma_occurrence_none(hay@, needle@, 0);
    }
    None
}

/// The first index at or after `from` that holds `c`.
pub open spec fn index_of_from(s: Seq<char>, c: char, from: int) -> Option<int>
    decreases s.len() - from,
{
    if from < 0 || from >= s.len() {
        None
    } else if s[from] == c {
        Some(from)
    } else {
        index_of_from(s, c, from + 1)
    }
}

/// The first index at or after `from` that holds `c`.
pub fn find_char_from(s: &Vec<char>, c: char, from: usize) -> (r: Option<usize>)
    ensures
        match r {
            Some(i) => index_of_from(s@, c, from as int) == Some(i as int) && from <= i < s.len() && s@[i as int]
                == c,
            None => index_of_from(s@, c, from as int) is None,
        },
{
    let mut i = from;
    while i < s.len()
        invariant
            from <= i,
            index_of_from(s@, c, from as int) == index_of_from(s@, c, i as int),
        decreases s.len() - i,
    {
        if s[i] == c {
            return Some(i);
        }
        i = i + 1;
    }
    None
}

/// A line without the carriage return that ended it.
pub open spec fn strip_cr(line: Seq<char>) -> Seq<char> {
    if line.len() > 0 && line.last() == '\r' {
        line.drop_last()
    } else {
        line
    }
}

/// The lines of `s`: pieces ended by `\n` (or `\r\n`, whose `\r` is dropped),
/// the last of them without an ending; no empty piece follows a final `\n`.
pub open spec fn split_lines(s: Seq<char>) -> Seq<Seq<char>>
    decreases s.len(),
{
    if s.len() == 0 {
        Seq::empty()
    } else {
        proof {
            lemma_index_of_bounds(s, '\n', 0);
        }
        match index_of_from(s, '\n', 0) {
            Some(i) => seq![strip_cr(s.subrange(0, i))] + split_lines(s.subrange(i + 1, s.len() as int)),
            None => seq![s],
        }
    }
}

/// Searching a suffix finds the same character, shifted.
pub proof fn lemma_index_of_shift(s: Seq<char>, c: char, from: int, i: int)
    requires
        0 <= i <= from,
        i <= s.len(),
    ensures
        index_of_from(s.subrange(i, s.len() as int), c, from - i) == match index_of_from(s, c, from) {
            Some(j) => Some(j - i),
            None => None::<int>,
        },
    decreases s.len() - from,
{
    let sub = s.subrange(i, s.len() as int);
    if 0 <= from < s.len() {
        assert(sub[from - i] == s[from]);
        if s[from] != c {
            lemma_index_of_shift(s, c, from + 1, i);
        }
    }
}

/// A found index lies in range and holds the character sought.
pub proof fn lemma_index_of_bounds(s: Seq<char>, c: char, from: int)
    ensures
        index_of_from(s, c, from) matches Some(j) ==> from <= j < s.len() && s[j] == c,
    decreases s.len() - from,
{
    if 0 <= from < s.len() && s[from] != c {
        lemma_index_of_bounds(s, c, from + 1);
    }
}

/// The lines of `s`, as `str::lines` gives them.
pub fn lines_of(s: &Vec<char>) -> (r: Vec<Vec<char>>)
    ensures
        r@.map_values(|l: Vec<char>| l@) == split_lines(s@),
{
    let mut out: Vec<Vec<char>> = Vec::new();
    let mut i: usize = 0;
    assert(s@.subrange(0, s@.len() as int) =~= s@);
    while i < s.len()
        invariant
            0 <= i <= s.len(),
            out@.map_values(|l: Vec<char>| l@) + split_lines(s@.subrange(i as int, s@.len() as int)) == split_lines(
                s@,
            ),
        decreases s.len() - i,
    {
        let ghost rest = s@.subrange(i as int, s@.len() as int);
        let ghost before = out@.map_values(|l: Vec<char>| l@);
        proof {
            lemma_index_of_shift(s@, '\n', i as int, i as int);
            lemma_index_of_bounds(s@, '\n', i as int);
        }
        let mut line: Vec<char> = Vec::new();
        match find_char_from(s, '\n', i) {
            Some(j) => {
                let mut k = i;
                while k < j
                    invariant
                        i <= k <= j < s.len(),
                        line@ == s@.subrange(i as int, k as int),
                    decreases j - k,
                {
                    line.push(s[k]);
                    k = k + 1;
                    assert(line@ =~= s@.subrange(i as int, k as int));
                }
                if line.len() > 0 && line[line.len() - 1] == '\r' {
                    line.pop();
                }
                let ghost i0 = i as int;
                assert(rest.subrange(0, j - i0) =~= s@.subrange(i0, j as int));
                assert(rest.subrange(j - i0 + 1, rest.len() as int) =~= s@.subrange(j + 1, s@.len() as int));
                assert(index_of_from(rest, '\n', 0) == Some(j - i0));
                assert(split_lines(rest) == seq![strip_cr(rest.subrange(0, j - i0))] + split_lines(
                    rest.subrange(j - i0 + 1, rest.len() as int),
                ));
                out.push(line);
                assert(out@.map_values(|l: Vec<char>| l@) =~= before.push(strip_cr(rest.subrange(0, j - i0))));
                i = j + 1;
                assert(before.push(strip_cr(rest.subrange(0, j - i0))) + split_lines(
                    s@.subrange(i as int, s@.len() as int),
                ) =~= before + split_lines(rest));
            },
            None => {
                let mut k = i;
                while k < s.len()
                    invariant
                        i <= k <= s.len(),
                        line@ == s@.subrange(i as int, k as int),
                    decreases s.len() - k,
                {
                    line.push(s[k]);
                    k = k + 1;
                    assert(line@ =~= s@.subrange(i as int, k as int));
                }
                out.push(line);
                assert(out@.map_values(|l: Vec<char>| l@) =~= before.push(rest));
                i = s.len();
                assert(s@.subrange(i as int, s@.len() as int) =~= Seq::<char>::empty());
                assert(before.push(rest) + split_lines(s@.subrange(i as int, s@.len() as int)) =~= before
                    + split_lines(rest));
            },
        }
    }
    assert(s@.subrange(i as int, s@.len() as int) =~= Seq::<char>::empty());
    assert(out@.map_values(|l: Vec<char>| l@) + Seq::<Seq<char>>::empty() =~= out@.map_values(
        |l: Vec<char>| l@,
    ));
    out
}

} // verus!
