//! Narrowing an index to the sections a caller asked for.

use vstd::prelude::*;

use crate::bytes::str_eq;
use crate::error::DocliError;
use crate::package::Package;
use crate::read::{read_index, read_index_outcome};
use crate::index::{CommentSummary, DocumentIndex, IndexView, TrackedChangeSummary};
use crate::text::chars_of;

verus! {

/// What `str::to_lowercase` makes of `s`.
pub uninterp spec fn unicode_lowercase(s: Seq<char>) -> Seq<char>;

/// `s` in lower case, by the Unicode case mapping. Calls `str::to_lowercase`.
#[verifier::external_body]
pub(crate) fn to_lowercase(s: &str) -> (r: String)
    ensures
        r@ == unicode_lowercase(s@),
{
    s.to_lowercase()
}

pub open spec fn lowered(sections: Seq<String>) -> Seq<Seq<char>> {
    sections.map_values(|s: String| unicode_lowercase(s@))
}

/// The index with each section that `selected` does not name emptied.
pub open spec fn filtered_index(ix: IndexView, selected: Seq<Seq<char>>) -> IndexView {
    let changes = selected.contains("tracked-changes"@);
    IndexView {
        part_path: ix.part_path,
        paragraphs: if selected.contains("paragraphs"@) {
            ix.paragraphs
        } else {
            Seq::empty()
        },
        tables: if selected.contains("tables"@) {
            ix.tables
        } else {
            Seq::empty()
        },
        images: if selected.contains("images"@) {
            ix.images
        } else {
            Seq::empty()
        },
        headings: if selected.contains("headings"@) {
            ix.headings
        } else {
            Seq::empty()
        },
        bookmarks: if selected.contains("bookmarks"@) {
            ix.bookmarks
        } else {
            Seq::empty()
        },
        comment_count: if selected.contains("comments"@) {
            ix.comment_count
        } else {
            0
        },
        change_count: if changes {
            ix.change_count
        } else {
            0
        },
        insertions: if changes {
            ix.insertions
        } else {
            0
        },
        deletions: if changes {
            ix.deletions
        } else {
            0
        },
        authors: if changes {
            ix.authors
        } else {
            Seq::empty()
        },
    }
}

/// The index narrowed to the requested sections; all of it when none are.
pub open spec fn section_filter(ix: IndexView, sections: Seq<String>) -> IndexView {
    if sections.len() == 0 {
        ix
    } else {
        filtered_index(ix, lowered(sections))
    }
}

/// The requested sections in lower case.
fn lowercase_all(sections: &Vec<String>) -> (r: Vec<String>)
    ensures
        r@.map_values(|s: String| s@) == lowered(sections@),
{
    let mut out: Vec<String> = Vec::new();
    let mut i: usize = 0;
    while i < sections.len()
        invariant
            0 <= i <= sections.len(),
            out@.map_values(|s: String| s@) == lowered(sections@.subrange(0, i as int)),
        decreases sections.len() - i,
    {
        let ghost before = out@.map_values(|s: String| s@);
        let l = to_lowercase(sections[i].as_str());
        out.push(l);
        assert(out@.map_values(|s: String| s@) =~= before.push(unicode_lowercase(sections@[i as int]@)));
        assert(lowered(sections@.subrange(0, i + 1)) =~= lowered(sections@.subrange(0, i as int)).push(
            unicode_lowercase(sections@[i as int]@),
        ));
        i = i + 1;
    }
    assert(sections@.subrange(0, i as int) =~= sections@);
    out
}

/// Whether `name` is among `v`.
fn names(v: &Vec<String>, name: &str) -> (r: bool)
    ensures
        r == v@.map_values(|s: String| s@).contains(name@),
{
    let ghost vv = v@.map_values(|s: String| s@);
    let mut i: usize = 0;
    while i < v.len()
        invariant
            0 <= i <= v.len(),
            vv == v@.map_values(|s: String| s@),
            forall|j: int| 0 <= j < i ==> vv[j] != name@,
        decreases v.len() - i,
    {
        if str_eq(v[i].as_str(), name) {
            assert(vv[i as int] == name@);
            return true;
        }
        i = i + 1;
    }
    false
}

/// Empties each section of the index that `sections` does not name, in any
/// case; with no sections named, the index is kept whole.
pub fn apply_section_filter(index: DocumentIndex, sections: &Vec<String>) -> (r: DocumentIndex)
    ensures
        r@ == section_filter(index@, sections@),
{
    if sections.len() == 0 {
        return index;
    }
    let ghost ix = index@;
    let selected = lowercase_all(sections);
    let mut index = index;
    if !names(&selected, "paragraphs") {
        index.paragraphs = Vec::new();
    }
    if !names(&selected, "tables") {
        index.tables = Vec::new();
    }
    if !names(&selected, "images") {
        index.images = Vec::new();
    }
    if !names(&selected, "headings") {
        index.headings = Vec::new();
    }
    if !names(&selected, "bookmarks") {
        index.bookmarks = Vec::new();
    }
    if !names(&selected, "comments") {
        index.comments = CommentSummary { count: 0 };
    }
    if !names(&selected, "tracked-changes") {
        index.tracked_changes = TrackedChangeSummary { count: 0, insertions: 0, deletions: 0, authors: Vec::new() };
    }
    let ghost want = section_filter(ix, sections@);
    assert(index@.paragraphs =~= want.paragraphs);
    assert(index@.tables =~= want.tables);
    assert(index@.images =~= want.images);
    assert(index@.headings =~= want.headings);
    assert(index@.bookmarks =~= want.bookmarks);
    assert(index@.authors =~= want.authors);
    index
}

/// `a` comes before `b` in code point order, as `String`'s `Ord` compares.
pub open spec fn lex_lt(a: Seq<char>, b: Seq<char>) -> bool
    decreases a.len(),
{
    if a.len() == 0 {
        b.len() > 0
    } else if b.len() == 0 {
        false
    } else if a[0] != b[0] {
        (a[0] as u32) < (b[0] as u32)
    } else {
        lex_lt(a.drop_first(), b.drop_first())
    }
}

/// `x` put into `s` before the first element it comes before.
pub open spec fn insert_sorted(s: Seq<Seq<char>>, x: Seq<char>) -> Seq<Seq<char>>
    decreases s.len(),
{
    if s.len() == 0 {
        seq![x]
    } else if lex_lt(x, s[0]) {
        seq![x] + s
    } else {
        seq![s[0]] + insert_sorted(s.drop_first(), x)
    }
}

/// `s` in order, by insertion.
pub open spec fn sort_seq(s: Seq<Seq<char>>) -> Seq<Seq<char>>
    decreases s.len(),
{
    if s.len() == 0 {
        Seq::empty()
    } else {
        insert_sorted(sort_seq(s.drop_last()), s.last())
    }
}

/// No element of `s` comes before an earlier one.
pub open spec fn sorted_seq(s: Seq<Seq<char>>) -> bool {
    forall|i: int, j: int| 0 <= i < j < s.len() ==> !lex_lt(#[trigger] s[j], #[trigger] s[i])
}

proof fn lemma_lex_irreflexive(a: Seq<char>)
    ensures
        !lex_lt(a, a),
    decreases a.len(),
{
    if a.len() > 0 {
        lemma_lex_irreflexive(a.drop_first());
    }
}

proof fn lemma_lex_transitive(a: Seq<char>, b: Seq<char>, c: Seq<char>)
    requires
        lex_lt(a, b),
        lex_lt(b, c),
    ensures
        lex_lt(a, c),
    decreases a.len(),
{
    if a.len() > 0 && b.len() > 0 && c.len() > 0 && a[0] == b[0] && b[0] == c[0] {
        lemma_lex_transitive(a.drop_first(), b.drop_first(), c.drop_first());
    }
}

proof fn lemma_insert_sorted(s: Seq<Seq<char>>, x: Seq<char>)
    ensures
        insert_sorted(s, x).to_multiset() == s.to_multiset().insert(x),
        sorted_seq(s) ==> sorted_seq(insert_sorted(s, x)),
    decreases s.len(),
{
    broadcast use vstd::seq_lib::to_multiset_insert, vstd::seq_lib::to_multiset_contains;
    broadcast use vstd::multiset::group_multiset_axioms;

    if s.len() == 0 {
        assert(seq![x] =~= s.insert(0, x));
    } else if lex_lt(x, s[0]) {
        assert(seq![x] + s =~= s.insert(0, x));
        if sorted_seq(s) {
            let r = insert_sorted(s, x);
            assert forall|i: int, j: int| 0 <= i < j < r.len() implies !lex_lt(#[trigger] r[j], #[trigger] r[i]) by {
                if i == 0 {
                    assert(r[j] == s[j - 1]);
                    if lex_lt(s[j - 1], x) {
                        lemma_lex_transitive(s[j - 1], x, s[0]);
                        if j - 1 == 0 {
                            lemma_lex_irreflexive(s[0]);
                        }
                    }
                } else {
                    assert(r[i] == s[i - 1] && r[j] == s[j - 1]);
                }
            }
        }
    } else {
        let rest = s.drop_first();
        let t = insert_sorted(rest, x);
        lemma_insert_sorted(rest, x);
        assert(seq![s[0]] + t =~= t.insert(0, s[0]));
        assert(s =~= rest.insert(0, s[0]));
        assert(t.insert(0, s[0]).to_multiset() =~= s.to_multiset().insert(x));
        if sorted_seq(s) {
            assert(sorted_seq(rest)) by {
                assert forall|i: int, j: int| 0 <= i < j < rest.len() implies !lex_lt(
                    #[trigger] rest[j],
                    #[trigger] rest[i],
                ) by {
                    assert(rest[i] == s[i + 1] && rest[j] == s[j + 1]);
                }
            }
            let r = insert_sorted(s, x);
            assert forall|i: int, j: int| 0 <= i < j < r.len() implies !lex_lt(#[trigger] r[j], #[trigger] r[i]) by {
                if i == 0 {
                    let e = t[j - 1];
                    assert(r[j] == e);
                    assert(t.contains(e));
                    assert(t.to_multiset().count(e) > 0);
                    if e != x {
                        assert(rest.to_multiset().count(e) > 0);
                        assert(rest.contains(e));
                        let k = choose|k: int| 0 <= k < rest.len() && rest[k] == e;
                        assert(s[k + 1] == e);
                    }
                } else {
                    assert(r[i] == t[i - 1] && r[j] == t[j - 1]);
                }
            }
        }
    }
}

/// Sorting puts the strings in order and keeps each of them, as often as
/// it occurs: `normalize_sections` returns every requested section, lower
/// case, in order.
pub proof fn law_sort_orders_and_keeps(s: Seq<Seq<char>>)
    ensures
        sorted_seq(sort_seq(s)),
        sort_seq(s).to_multiset() == s.to_multiset(),
    decreases s.len(),
{
    broadcast use vstd::seq_lib::to_multiset_build;

    if s.len() > 0 {
        law_sort_orders_and_keeps(s.drop_last());
        lemma_insert_sorted(sort_seq(s.drop_last()), s.last());
        assert(s =~= s.drop_last().push(s.last()));
        assert(s.drop_last().push(s.last()).to_multiset() =~= s.drop_last().to_multiset().insert(s.last()));
    } else {
        broadcast use vstd::seq_lib::to_multiset_len;
        broadcast use vstd::multiset::group_multiset_axioms;

        assert(s.to_multiset().len() == 0);
        assert(sort_seq(s).to_multiset().len() == 0);
        assert(s.to_multiset() =~= sort_seq(s).to_multiset());
    }
}

/// Whether `a` comes before `b`.
fn lex_less(a: &Vec<char>, b: &Vec<char>) -> (r: bool)
    ensures
        r == lex_lt(a@, b@),
{
    let mut i: usize = 0;
    assert(a@.subrange(0, a@.len() as int) =~= a@);
    assert(b@.subrange(0, b@.len() as int) =~= b@);
    while i < a.len() && i < b.len() && a[i] == b[i]
        invariant
            0 <= i <= a.len(),
            i <= b.len(),
            lex_lt(a@, b@) == lex_lt(a@.subrange(i as int, a@.len() as int), b@.subrange(i as int, b@.len() as int)),
        decreases a.len() - i,
    {
        assert(a@.subrange(i as int, a@.len() as int).drop_first() =~= a@.subrange(i + 1, a@.len() as int));
        assert(b@.subrange(i as int, b@.len() as int).drop_first() =~= b@.subrange(i + 1, b@.len() as int));
        i = i + 1;
    }
    if i == a.len() {
        i < b.len()
    } else if i == b.len() {
        false
    } else {
        assert(a@.subrange(i as int, a@.len() as int)[0] == a@[i as int]);
        assert(b@.subrange(i as int, b@.len() as int)[0] == b@[i as int]);
        (a[i] as u32) < (b[i] as u32)
    }
}

proof fn lemma_insert_sorted_at(s: Seq<Seq<char>>, x: Seq<char>, i: int)
    requires
        0 <= i <= s.len(),
        forall|j: int| 0 <= j < i ==> !lex_lt(x, #[trigger] s[j]),
        i < s.len() ==> lex_lt(x, s[i]),
    ensures
        insert_sorted(s, x) == s.insert(i, x),
    decreases i,
{
    if i == 0 {
        if s.len() == 0 {
            assert(s.insert(0, x) =~= seq![x]);
        } else {
            assert(s.insert(0, x) =~= seq![x] + s);
        }
    } else {
        assert forall|j: int| 0 <= j < i - 1 implies !lex_lt(x, #[trigger] s.drop_first()[j]) by {
            assert(s.drop_first()[j] == s[j + 1]);
        }
        lemma_insert_sorted_at(s.drop_first(), x, i - 1);
        assert(seq![s[0]] + s.drop_first().insert(i - 1, x) =~= s.insert(i, x));
    }
}

/// Puts `x` into the ordered `sorted` before the first element it comes before.
fn insert_in_order(sorted: &mut Vec<String>, x: String)
    ensures
        final(sorted)@.map_values(|s: String| s@) == insert_sorted(old(sorted)@.map_values(|s: String| s@), x@),
{
    let ghost sv = sorted@.map_values(|s: String| s@);
    let xc = chars_of(x.as_str());
    let mut i: usize = 0;
    let mut found = false;
    while i < sorted.len() && !found
        invariant
            0 <= i <= sorted.len(),
            sv == sorted@.map_values(|s: String| s@),
            sv == old(sorted)@.map_values(|s: String| s@),
            xc@ == x@,
            forall|j: int| 0 <= j < i ==> !lex_lt(x@, #[trigger] sv[j]),
            found ==> i < sorted.len() && lex_lt(x@, sv[i as int]),
        decreases sorted.len() - i, if found { 0int } else { 1int },
    {
        let cc = chars_of(sorted[i].as_str());
        assert(sv[i as int] == sorted@[i as int]@);
        if lex_less(&xc, &cc) {
            found = true;
        } else {
            i = i + 1;
        }
    }
    proof {
        lemma_insert_sorted_at(sv, x@, i as int);
    }
    sorted.insert(i, x);
    assert(sorted@.map_values(|s: String| s@) =~= sv.insert(i as int, x@));
}

/// The strings of `v` in order.
pub fn sort_strings(v: &Vec<String>) -> (r: Vec<String>)
    ensures
        r@.map_values(|s: String| s@) == sort_seq(v@.map_values(|s: String| s@)),
{
    let ghost vv = v@.map_values(|s: String| s@);
    let mut out: Vec<String> = Vec::new();
    let mut i: usize = 0;
    assert(vv.subrange(0, 0) =~= Seq::<Seq<char>>::empty());
    while i < v.len()
        invariant
            0 <= i <= v.len(),
            vv == v@.map_values(|s: String| s@),
            out@.map_values(|s: String| s@) == sort_seq(vv.subrange(0, i as int)),
        decreases v.len() - i,
    {
        insert_in_order(&mut out, v[i].clone());
        assert(vv.subrange(0, i + 1).drop_last() =~= vv.subrange(0, i as int));
        assert(vv.subrange(0, i + 1).last() == v@[i as int]@);
        i = i + 1;
    }
    assert(vv.subrange(0, i as int) =~= vv);
    out
}

/// The requested sections in lower case and in order.
pub fn normalize_sections(sections: &Vec<String>) -> (r: Vec<String>)
    ensures
        r@.map_values(|s: String| s@) == sort_seq(lowered(sections@)),
{
    let low = lowercase_all(sections);
    let ghost lv = low@.map_values(|s: String| s@);
    let mut out: Vec<String> = Vec::new();
    let mut i: usize = 0;
    assert(lv.subrange(0, 0) =~= Seq::<Seq<char>>::empty());
    while i < low.len()
        invariant
            0 <= i <= low.len(),
            lv == low@.map_values(|s: String| s@),
            out@.map_values(|s: String| s@) == sort_seq(lv.subrange(0, i as int)),
        decreases low.len() - i,
    {
        insert_in_order(&mut out, low[i].clone());
        assert(lv.subrange(0, i + 1).drop_last() =~= lv.subrange(0, i as int));
        assert(lv.subrange(0, i + 1).last() == low@[i as int]@);
        i = i + 1;
    }
    assert(lv.subrange(0, i as int) =~= lv);
    out
}

/// The arguments of `inspect`: the source file and the sections to keep
/// (all when none is named).
#[derive(Debug)]
pub struct InspectArgs {
    pub source: String,
    pub sections: Vec<String>,
}

/// What `inspect` reports: the source, the sections asked for (lower case,
/// in order) and the index of the main document part, narrowed to them.
#[derive(Debug)]
pub struct InspectData {
    pub source: String,
    pub sections: Vec<String>,
    pub index: DocumentIndex,
}

/// Inspects `package`, opened from `args.source`.
pub fn run(args: &InspectArgs, package: &Package) -> (r: Result<InspectData, DocliError>)
    ensures
        match read_index_outcome(package) {
            Ok(v) => r matches Ok(d) && d.index@ == section_filter(v, args.sections@) && d.sections@.map_values(
                |s: String| s@,
            ) == sort_seq(lowered(args.sections@)) && d.source@ == args.source@,
            Err(e) => r matches Err(x) && x.view_pair() == e,
        },
{
    let index = match read_index(package) {
        Ok(i) => i,
        Err(e) => return Err(e),
    };
    let index = apply_section_filter(index, &args.sections);
    let sections = normalize_sections(&args.sections);
    Ok(InspectData { source: args.source.clone(), sections, index })
}

/// The section `name` is asked for: no section is named, or one of the
/// named sections is `name` once lower-cased.
pub open spec fn asks_for(sections: Seq<String>, name: Seq<char>) -> bool {
    sections.len() == 0 || exists|i: int| 0 <= i < sections.len() && unicode_lowercase(#[trigger] sections[i]@) == name
}

/// Narrowing an index to sections keeps each section that is asked for
/// exactly as it was and empties each one that is not: `paragraphs`,
/// `tables`, `images`, `headings`, `bookmarks`, `comments` (the comment
/// count) and `tracked-changes` (the change counts and the authors). The
/// part path always stays.
pub proof fn law_asked_sections_kept(ix: IndexView, sections: Seq<String>)
    ensures
        ({
            let r = section_filter(ix, sections);
            &&& r.part_path == ix.part_path
            &&& r.paragraphs == if asks_for(sections, "paragraphs"@) {
                ix.paragraphs
            } else {
                Seq::empty()
            }
            &&& r.tables == if asks_for(sections, "tables"@) {
                ix.tables
            } else {
                Seq::empty()
            }
            &&& r.images == if asks_for(sections, "images"@) {
                ix.images
            } else {
                Seq::empty()
            }
            &&& r.headings == if asks_for(sections, "headings"@) {
                ix.headings
            } else {
                Seq::empty()
            }
            &&& r.bookmarks == if asks_for(sections, "bookmarks"@) {
                ix.bookmarks
            } else {
                Seq::empty()
            }
            &&& r.comment_count == if asks_for(sections, "comments"@) {
                ix.comment_count
            } else {
                0
            }
            &&& if asks_for(sections, "tracked-changes"@) {
                &&& r.change_count == ix.change_count
                &&& r.insertions == ix.insertions
                &&& r.deletions == ix.deletions
                &&& r.authors == ix.authors
            } else {
                &&& r.change_count == 0
                &&& r.insertions == 0
                &&& r.deletions == 0
                &&& r.authors == Seq::<Seq<char>>::empty()
            }
        }),
{
    if sections.len() > 0 {
        let low = lowered(sections);
        assert forall|name: Seq<char>| #[trigger] low.contains(name) == asks_for(sections, name) by {
            if low.contains(name) {
                let i = choose|i: int| 0 <= i < low.len() && low[i] == name;
                assert(unicode_lowercase(sections[i]@) == name);
            }
            if asks_for(sections, name) {
                let i = choose|i: int| 0 <= i < sections.len() && unicode_lowercase(#[trigger] sections[i]@) == name;
                assert(low[i] == name);
            }
        }
        assert(low.contains("paragraphs"@) == asks_for(sections, "paragraphs"@));
        assert(low.contains("tables"@) == asks_for(sections, "tables"@));
        assert(low.contains("images"@) == asks_for(sections, "images"@));
        assert(low.contains("headings"@) == asks_for(sections, "headings"@));
        assert(low.contains("bookmarks"@) == asks_for(sections, "bookmarks"@));
        assert(low.contains("comments"@) == asks_for(sections, "comments"@));
        assert(low.contains("tracked-changes"@) == asks_for(sections, "tracked-changes"@));
    }
}

} // verus!
