//! The `diff` command: the paragraph texts of two documents compared line
//! by line.

use vstd::prelude::*;

use crate::diff::{lines_text, report_of, semantic_diff, similar_line_changes, DiffResult};
use crate::error::{DocliError, ErrorCode};
use crate::index::{index_outcome, DocumentIndex, IndexView};
use crate::package::Package;

verus! {

/// Compare the main document parts of two files.
#[derive(Debug)]
pub struct DiffArgs {
    pub old: String,
    pub new: String,
}

/// The files compared and what changed between them.
#[derive(Debug)]
pub struct DiffData {
    pub old_file: String,
    pub new_file: String,
    pub diff: DiffResult,
}

/// The index of a package's main document part, or the error: `missing`
/// when there is no such part.
pub open spec fn side_index(pkg: &Package, missing: Seq<char>) -> Result<IndexView, (ErrorCode, Seq<char>)> {
    match pkg.xml("word/document.xml"@) {
        None => Err((ErrorCode::InvalidDocx, missing)),
        Some(b) => match index_outcome(b, None) {
            Ok(v) => Ok(v),
            Err(e) => Err((ErrorCode::InvalidDocx, e)),
        },
    }
}

/// The paragraph texts of an index, each followed by a line feed.
pub open spec fn index_text(v: IndexView) -> Seq<char> {
    lines_text(v.paragraphs, v.paragraphs.len() as int)
}

fn side(pkg: &Package, missing: &str) -> (r: Result<DocumentIndex, DocliError>)
    ensures
        match side_index(pkg, missing@) {
            Ok(v) => r matches Ok(i) && i@ == v,
            Err(e) => r matches Err(x) && x.view_pair() == e,
        },
{
    match pkg.xml_part("word/document.xml") {
        Some(b) => DocumentIndex::build(b.as_slice()),
        None => Err(DocliError::InvalidDocx { message: String::from_str(missing) }),
    }
}

/// Compares the main document parts of `old_pkg` and `new_pkg`, opened from
/// `args.old` and `args.new`.
pub fn execute(args: &DiffArgs, old_pkg: &Package, new_pkg: &Package) -> (r: Result<DiffData, DocliError>)
    ensures
        match side_index(old_pkg, "old file missing word/document.xml"@) {
            Err(e) => r matches Err(x) && x.view_pair() == e,
            Ok(vo) => match side_index(new_pkg, "new file missing word/document.xml"@) {
                Err(e) => r matches Err(x) && x.view_pair() == e,
                Ok(vn) => r matches Ok(d) && d.old_file@ == args.old@ && d.new_file@ == args.new@ && report_of(
                    &d.diff,
                    similar_line_changes(index_text(vo), index_text(vn)),
                ),
            },
        },
{
    let old_index = side(old_pkg, "old file missing word/document.xml")?;
    let new_index = side(new_pkg, "new file missing word/document.xml")?;
    let diff = semantic_diff(&old_index, &new_index);
    Ok(DiffData { old_file: args.old.clone(), new_file: args.new.clone(), diff })
}

} // verus!
