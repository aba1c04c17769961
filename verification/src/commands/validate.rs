//! The `validate` command: the invariant and tracked-change findings on a
//! package, and, on request, the repair of its XML parts.

use std::path::Path;

use vstd::prelude::*;

use crate::bytes::bytes_equal;
use crate::error::{DocliError, ErrorCode};
use crate::kb::{join, join_path};
use crate::invariants::{check_invariants, invariant_findings};
use crate::package::{Package, XmlPart};
use crate::redline::{redline_findings, validate_redlines};
use crate::repair::{ensure_xml_space_preserve, id_repair_outcome, repair_durable_id_overflow, space_preserve_outcome};
use crate::schema::{issues_view, IssueView, ValidationIssue};
use crate::text::{push_str_chars, string_from_chars};

verus! {

/// The arguments of `validate`.
#[derive(Debug)]
pub struct ValidateArgs {
    pub source: String,
    pub repair: bool,
    pub output: Option<String>,
}

/// What `validate` reports.
#[derive(Debug)]
pub struct ValidateData {
    pub source: String,
    pub output: Option<String>,
    pub valid: bool,
    pub issue_count: usize,
    pub repair: bool,
    pub repaired: bool,
    pub issues: Vec<ValidationIssue>,
    pub warnings: Vec<String>,
}

/// What `Path::file_stem` gives for the path `p`, as text.
pub uninterp spec fn path_file_stem(p: Seq<char>) -> Option<Seq<char>>;

/// What `Path::parent` gives for the path `p`, as text.
pub uninterp spec fn path_parent(p: Seq<char>) -> Option<Seq<char>>;

/// The file name of `p` without its extension. Calls `Path::file_stem`.
#[verifier::external_body]
fn file_stem(p: &str) -> (r: Option<String>)
    ensures
        match path_file_stem(p@) {
            Some(s) => r matches Some(x) && x@ == s,
            None => r is None,
        },
{
    Path::new(p).file_stem().map(|s| s.to_string_lossy().into_owned())
}

/// The path of the directory holding `p`. Calls `Path::parent`.
#[verifier::external_body]
fn parent(p: &str) -> (r: Option<String>)
    ensures
        match path_parent(p@) {
            Some(s) => r matches Some(x) && x@ == s,
            None => r is None,
        },
{
    Path::new(p).parent().map(|s| s.to_string_lossy().into_owned())
}

/// Where a repaired copy of `source` goes by default: `<stem>.repaired.docx`
/// beside it (`document` when it has no stem, `.` when it has no parent).
pub open spec fn repair_output_for(source: Seq<char>) -> Seq<char> {
    let stem = match path_file_stem(source) {
        Some(s) => s,
        None => "document"@,
    };
    let dir = match path_parent(source) {
        Some(d) => d,
        None => "."@,
    };
    join_path(dir, stem + ".repaired.docx"@)
}

/// Where a repaired copy of `source` goes by default.
pub fn default_repair_output(source: &str) -> (r: String)
    ensures
        r@ == repair_output_for(source@),
{
    let stem = match file_stem(source) {
        Some(s) => s,
        None => "document".to_string(),
    };
    let dir = match parent(source) {
        Some(d) => d,
        None => ".".to_string(),
    };
    let mut name: Vec<char> = Vec::new();
    push_str_chars(&mut name, stem.as_str());
    push_str_chars(&mut name, ".repaired.docx");
    let name = string_from_chars(&name);
    join(dir.as_str(), name.as_str())
}

/// The repair of one part: `xml:space="preserve"` where text needs it, then
/// the renumbering of ids that overflow.
pub open spec fn part_repair(bytes: Seq<u8>) -> Result<Seq<u8>, Seq<char>> {
    match space_preserve_outcome(bytes) {
        Ok(b) => id_repair_outcome(b),
        Err(e) => Err(e),
    }
}

/// The repaired parts whose bytes changed, in order; or the first
/// failure.
pub open spec fn parts_repair(parts: Seq<XmlPart>) -> Result<Seq<(Seq<char>, Seq<u8>)>, Seq<char>>
    decreases parts.len(),
{
    if parts.len() == 0 {
        Ok(Seq::empty())
    } else {
        match parts_repair(parts.drop_last()) {
            Err(e) => Err(e),
            Ok(done) => match part_repair(parts.last().bytes@) {
                Err(e) => Err(e),
                Ok(b) => if b == parts.last().bytes@ {
                    Ok(done)
                } else {
                    Ok(done.push((parts.last().path@, b)))
                },
            },
        }
    }
}

pub open spec fn parts_view(parts: Seq<XmlPart>) -> Seq<(Seq<char>, Seq<u8>)> {
    parts.map_values(|p: XmlPart| (p.path@, p.bytes@))
}

/// Repairs every XML part of the package and returns those that changed.
pub fn repair_parts(package: &Package) -> (r: Result<Vec<XmlPart>, DocliError>)
    ensures
        match parts_repair(package.xml_parts@) {
            Ok(changed) => r matches Ok(v) && parts_view(v@) == changed,
            Err(e) => r matches Err(x) && x.view_pair() == (ErrorCode::InvalidDocx, e),
        },
{
    let parts = &package.xml_parts;
    let mut changed: Vec<XmlPart> = Vec::new();
    let mut i: usize = 0;
    assert(parts_view(changed@) =~= Seq::<(Seq<char>, Seq<u8>)>::empty());
    while i < parts.len()
        invariant
            0 <= i <= parts.len(),
            parts@ == package.xml_parts@,
            parts_repair(parts@.subrange(0, i as int)) == Ok::<Seq<(Seq<char>, Seq<u8>)>, Seq<char>>(
                parts_view(changed@),
            ),
        decreases parts.len() - i,
    {
        let part = &parts[i];
        assert(parts@.subrange(0, i + 1).drop_last() =~= parts@.subrange(0, i as int));
        assert(parts@.subrange(0, i + 1).last() == *part);
        let reparsed = match ensure_xml_space_preserve(part.bytes.as_slice()) {
            Ok(b) => b,
            Err(e) => {
                proof {
                    let pre = parts@.subrange(0, i as int + 1);
                    assert(pre.drop_last() =~= parts@.subrange(0, i as int));
                    assert(part_repair(part.bytes@) == Err::<Seq<u8>, Seq<char>>(e.view_pair().1));
                    assert(parts_repair(pre) == Err::<Seq<(Seq<char>, Seq<u8>)>, Seq<char>>(e.view_pair().1));
                    lemma_repair_error_stays(parts@, i as int + 1);
                    assert(e.view_pair().0 == ErrorCode::InvalidDocx);
                    assert(parts_repair(package.xml_parts@) == Err::<Seq<(Seq<char>, Seq<u8>)>, Seq<char>>(
                        e.view_pair().1,
                    ));
                }
                return Err(e);
            },
        };
        let repaired = match repair_durable_id_overflow(reparsed.as_slice()) {
            Ok(b) => b,
            Err(e) => {
                proof {
                    let pre = parts@.subrange(0, i as int + 1);
                    assert(pre.drop_last() =~= parts@.subrange(0, i as int));
                    assert(part_repair(part.bytes@) == Err::<Seq<u8>, Seq<char>>(e.view_pair().1));
                    assert(parts_repair(pre) == Err::<Seq<(Seq<char>, Seq<u8>)>, Seq<char>>(e.view_pair().1));
                    lemma_repair_error_stays(parts@, i as int + 1);
                    assert(e.view_pair().0 == ErrorCode::InvalidDocx);
                    assert(parts_repair(package.xml_parts@) == Err::<Seq<(Seq<char>, Seq<u8>)>, Seq<char>>(
                        e.view_pair().1,
                    ));
                }
                return Err(e);
            },
        };
        if !bytes_equal(repaired.as_slice(), part.bytes.as_slice()) {
            let ghost before = changed@;
            changed.push(XmlPart { path: part.path.clone(), bytes: repaired });
            assert(parts_view(changed@) =~= parts_view(before).push((part.path@, part_repair(part.bytes@)->Ok_0)));
        }
        i = i + 1;
    }
    assert(parts@.subrange(0, i as int) =~= parts@);
    Ok(changed)
}

/// A failure in a prefix of the parts is the failure of the whole.
proof fn lemma_repair_error_stays(parts: Seq<XmlPart>, n: int)
    requires
        0 <= n <= parts.len(),
        parts_repair(parts.subrange(0, n)) is Err,
    ensures
        parts_repair(parts) == parts_repair(parts.subrange(0, n)),
    decreases parts.len() - n,
{
    if n < parts.len() {
        assert(parts.subrange(0, n + 1).drop_last() =~= parts.subrange(0, n));
        lemma_repair_error_stays(parts, n + 1);
    } else {
        assert(parts.subrange(0, n) =~= parts);
    }
}

/// The findings `validate` reports: the package invariants, then the
/// tracked-change checks.
pub open spec fn validate_findings(package: &Package) -> Seq<IssueView> {
    invariant_findings(package) + redline_findings(package.xml_parts@)
}

/// What `validate` reports on `package`, opened from `args.source`. With
/// `repair`, the output is `args.output`, or the default beside the source.
///
/// The findings are those of `check_invariants` and `validate_redlines`.
/// Structural findings (missing required parts, see `check_structural`) are
/// not among them: they come in another issue type, with a severity of their
/// own and no part, and no conversion into the findings reported here is
/// defined, so `run` reports none.
pub fn run(args: &ValidateArgs, package: &Package) -> (r: ValidateData)
    ensures
        r.source@ == args.source@,
        issues_view(r.issues@) == validate_findings(package),
        r.issue_count == r.issues.len(),
        r.valid == (r.issues.len() == 0),
        r.repair == args.repair,
        r.repaired == args.repair,
        r.warnings@.len() == 0,
        match r.output {
            None => !args.repair,
            Some(o) => args.repair && o@ == match args.output {
                Some(given) => given@,
                None => repair_output_for(args.source@),
            },
        },
{
    let mut issues = check_invariants(package);
    let mut redlines = validate_redlines(package);
    let ghost first = issues@;
    let ghost second = redlines@;
    issues.append(&mut redlines);
    assert(issues_view(issues@) =~= issues_view(first) + issues_view(second));
    let output = if args.repair {
        match &args.output {
            Some(o) => Some(o.clone()),
            None => Some(default_repair_output(args.source.as_str())),
        }
    } else {
        None
    };
    let count = issues.len();
    ValidateData {
        source: args.source.clone(),
        output,
        valid: count == 0,
        issue_count: count,
        repair: args.repair,
        repaired: args.repair,
        issues,
        warnings: Vec::new(),
    }
}

} // verus!
