//! A line diff of the paragraph text of two document indexes.

use vstd::prelude::*;

use crate::index::{DocumentIndex, ParaView};
use crate::text::{push_str_chars, string_from_chars};
use crate::xml::opt_string_view;

verus! {

/// How a line fares between the two texts.
#[derive(Clone, Copy, Debug, PartialEq, Eq, Structural)]
pub enum ChangeKind {
    Equal,
    Insert,
    Delete,
}

/// One line of the diff as `similar` reports it.
pub struct LineChange {
    pub kind: ChangeKind,
    pub old_index: Option<usize>,
    pub new_index: Option<usize>,
    pub value: String,
}

pub struct LineChangeView {
    pub kind: ChangeKind,
    pub old_index: Option<usize>,
    pub new_index: Option<usize>,
    pub value: Seq<char>,
}

impl View for LineChange {
    type V = LineChangeView;

    open spec fn view(&self) -> LineChangeView {
        LineChangeView { kind: self.kind, old_index: self.old_index, new_index: self.new_index, value: self.value@ }
    }
}

/// The changes `similar::TextDiff::from_lines` finds between `old` and `new`.
pub uninterp spec fn similar_line_changes(old: Seq<char>, new: Seq<char>) -> Seq<LineChangeView>;

/// The line changes between `old` and `new`: each change's tag, its line
/// indexes in the two texts and its line. Calls `similar::TextDiff::from_lines`.
#[verifier::external_body]
fn line_changes(old: &str, new: &str) -> (r: Vec<LineChange>)
    ensures
        r@.map_values(|c: LineChange| c@) == similar_line_changes(old@, new@),
{
    let kind = |t| match t {
        similar::ChangeTag::Equal => ChangeKind::Equal,
        similar::ChangeTag::Insert => ChangeKind::Insert,
        similar::ChangeTag::Delete => ChangeKind::Delete,
    };
    similar::TextDiff::from_lines(old, new).iter_all_changes().map(|c| LineChange {
        kind: kind(c.tag()),
        old_index: c.old_index(),
        new_index: c.new_index(),
        value: c.value().to_string(),
    }).collect()
}

/// One entry of the diff report.
#[derive(Debug)]
pub struct DiffChange {
    pub tag: String,
    pub old_index: Option<usize>,
    pub new_index: Option<usize>,
    pub value: String,
}

/// How many lines were inserted, deleted and kept.
#[derive(Debug)]
pub struct DiffSummary {
    pub insertions: usize,
    pub deletions: usize,
    pub unchanged: usize,
}

/// The changes and their counts.
#[derive(Debug)]
pub struct DiffResult {
    pub changes: Vec<DiffChange>,
    pub summary: DiffSummary,
}

pub struct ChangeView {
    pub tag: Seq<char>,
    pub old_index: Option<usize>,
    pub new_index: Option<usize>,
    pub value: Seq<char>,
}

impl View for DiffChange {
    type V = ChangeView;

    open spec fn view(&self) -> ChangeView {
        ChangeView { tag: self.tag@, old_index: self.old_index, new_index: self.new_index, value: self.value@ }
    }
}

/// The report entry for a change: its tag's name, and only the indexes that
/// exist on its side.
pub open spec fn change_entry(c: LineChangeView) -> ChangeView {
    match c.kind {
        ChangeKind::Equal => ChangeView { tag: "equal"@, old_index: c.old_index, new_index: c.new_index, value: c.value },
        ChangeKind::Insert => ChangeView { tag: "insert"@, old_index: None, new_index: c.new_index, value: c.value },
        ChangeKind::Delete => ChangeView { tag: "delete"@, old_index: c.old_index, new_index: None, value: c.value },
    }
}

/// The number of changes of kind `k` among the first `n`.
pub open spec fn count_kind(cs: Seq<LineChangeView>, n: int, k: ChangeKind) -> nat
    decreases n,
{
    if n <= 0 {
        0
    } else {
        count_kind(cs, n - 1, k) + if cs[n - 1].kind == k {
            1nat
        } else {
            0nat
        }
    }
}

pub open spec fn changes_view(v: Seq<DiffChange>) -> Seq<ChangeView> {
    v.map_values(|c: DiffChange| c@)
}

/// The report of a list of changes.
pub open spec fn report_of(result: &DiffResult, cs: Seq<LineChangeView>) -> bool {
    &&& changes_view(result.changes@) == cs.map_values(|c: LineChangeView| change_entry(c))
    &&& result.summary.insertions == count_kind(cs, cs.len() as int, ChangeKind::Insert)
    &&& result.summary.deletions == count_kind(cs, cs.len() as int, ChangeKind::Delete)
    &&& result.summary.unchanged == count_kind(cs, cs.len() as int, ChangeKind::Equal)
}

/// Every change has one of the three kinds, so the counts add up.
pub proof fn lemma_counts_add_up(cs: Seq<LineChangeView>, n: int)
    requires
        0 <= n <= cs.len(),
    ensures
        count_kind(cs, n, ChangeKind::Insert) + count_kind(cs, n, ChangeKind::Delete) + count_kind(
            cs,
            n,
            ChangeKind::Equal,
        ) == n,
    decreases n,
{
    if n > 0 {
        lemma_counts_add_up(cs, n - 1);
    }
}

/// The report of a list of line changes: each change with its tag's name and
/// the indexes on its side, and the count of each kind.
pub fn diff_from_changes(changes: &Vec<LineChange>) -> (r: DiffResult)
    ensures
        report_of(&r, changes@.map_values(|c: LineChange| c@)),
        r.summary.insertions + r.summary.deletions + r.summary.unchanged == changes.len(),
{
    let ghost cs = changes@.map_values(|c: LineChange| c@);
    let mut out: Vec<DiffChange> = Vec::new();
    let mut insertions: usize = 0;
    let mut deletions: usize = 0;
    let mut unchanged: usize = 0;
    let mut i: usize = 0;
    while i < changes.len()
        invariant
            0 <= i <= changes.len(),
            cs == changes@.map_values(|c: LineChange| c@),
            changes_view(out@) == cs.subrange(0, i as int).map_values(|c: LineChangeView| change_entry(c)),
            insertions == count_kind(cs, i as int, ChangeKind::Insert),
            deletions == count_kind(cs, i as int, ChangeKind::Delete),
            unchanged == count_kind(cs, i as int, ChangeKind::Equal),
        decreases changes.len() - i,
    {
        proof {
            lemma_counts_add_up(cs, i as int);
        }
        let c = &changes[i];
        assert(cs[i as int] == c@);
        let entry = match c.kind {
            ChangeKind::Equal => {
                unchanged = unchanged + 1;
                DiffChange {
                    tag: String::from_str("equal"),
                    old_index: c.old_index,
                    new_index: c.new_index,
                    value: c.value.clone(),
                }
            },
            ChangeKind::Insert => {
                insertions = insertions + 1;
                DiffChange { tag: String::from_str("insert"), old_index: None, new_index: c.new_index, value: c.value.clone() }
            },
            ChangeKind::Delete => {
                deletions = deletions + 1;
                DiffChange { tag: String::from_str("delete"), old_index: c.old_index, new_index: None, value: c.value.clone() }
            },
        };
        let ghost before = changes_view(out@);
        out.push(entry);
        assert(changes_view(out@) =~= before.push(change_entry(cs[i as int])));
        assert(cs.subrange(0, i + 1).map_values(|c: LineChangeView| change_entry(c)) =~= cs.subrange(
            0,
            i as int,
        ).map_values(|c: LineChangeView| change_entry(c)).push(change_entry(cs[i as int])));
        i = i + 1;
    }
    assert(cs.subrange(0, i as int) =~= cs);
    proof {
        lemma_counts_add_up(cs, cs.len() as int);
    }
    DiffResult { changes: out, summary: DiffSummary { insertions, deletions, unchanged } }
}

/// The paragraph texts joined by newlines.
pub open spec fn joined_text(ps: Seq<ParaView>, n: int) -> Seq<char>
    decreases n,
{
    if n <= 0 {
        Seq::empty()
    } else if n == 1 {
        ps[0].text
    } else {
        joined_text(ps, n - 1) + "\n"@ + ps[n - 1].text
    }
}

/// The first `n` paragraph texts as lines: each text followed by a line feed.
pub open spec fn lines_text(ps: Seq<ParaView>, n: int) -> Seq<char>
    decreases n,
{
    if n <= 0 {
        Seq::empty()
    } else {
        lines_text(ps, n - 1) + ps[n - 1].text + "\n"@
    }
}

/// The text `semantic_diff` compares: one line per paragraph.
pub open spec fn paragraphs_text(ix: &DocumentIndex) -> Seq<char> {
    lines_text(ix@.paragraphs, ix@.paragraphs.len() as int)
}

/// The paragraph texts of `index` joined by newlines.
pub fn joined_paragraphs(index: &DocumentIndex) -> (r: String)
    ensures
        r@ == joined_text(index@.paragraphs, index@.paragraphs.len() as int),
{
    let ghost ps = index@.paragraphs;
    let mut out: Vec<char> = Vec::new();
    let mut i: usize = 0;
    while i < index.paragraphs.len()
        invariant
            0 <= i <= index.paragraphs.len(),
            ps == index@.paragraphs,
            out@ == joined_text(ps, i as int),
        decreases index.paragraphs.len() - i,
    {
        assert(ps[i as int] == index.paragraphs@[i as int]@);
        if i > 0 {
            push_str_chars(&mut out, "\n");
        }
        push_str_chars(&mut out, index.paragraphs[i].text.as_str());
        i = i + 1;
        assert(out@ =~= joined_text(ps, i as int));
    }
    string_from_chars(&out)
}

/// The paragraph texts of `index`, each followed by a line feed.
fn paragraph_lines(index: &DocumentIndex) -> (r: String)
    ensures
        r@ == paragraphs_text(index),
{
    let ghost ps = index@.paragraphs;
    let mut out: Vec<char> = Vec::new();
    let mut i: usize = 0;
    while i < index.paragraphs.len()
        invariant
            0 <= i <= index.paragraphs.len(),
            ps == index@.paragraphs,
            out@ == lines_text(ps, i as int),
        decreases index.paragraphs.len() - i,
    {
        assert(ps[i as int] == index.paragraphs@[i as int]@);
        push_str_chars(&mut out, index.paragraphs[i].text.as_str());
        push_str_chars(&mut out, "\n");
        i = i + 1;
        assert(out@ =~= lines_text(ps, i as int));
    }
    string_from_chars(&out)
}

/// A line diff of the paragraph text of two indexes, each paragraph one line
/// ended by a line feed, so that a paragraph appended, removed or changed is
/// one line inserted, deleted or replaced.
pub fn semantic_diff(old: &DocumentIndex, new: &DocumentIndex) -> (r: DiffResult)
    ensures
        report_of(&r, similar_line_changes(paragraphs_text(old), paragraphs_text(new))),
{
    let a = paragraph_lines(old);
    let b = paragraph_lines(new);
    let changes = line_changes(a.as_str(), b.as_str());
    diff_from_changes(&changes)
}

} // verus!
