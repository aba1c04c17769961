//! Structural checks: the parts every word-processing package must hold.

use vstd::prelude::*;

use crate::package::Package;
use crate::text::{chars_of, concat_message};

verus! {

/// Severity of a structural finding.
#[derive(Clone, Copy, Debug, PartialEq, Eq, Structural)]
pub enum Severity {
    Error,
    Warning,
}

/// One structural finding.
#[derive(Debug)]
pub struct ValidationIssue {
    pub severity: Severity,
    pub code: &'static str,
    pub message: String,
}

impl ValidationIssue {
    pub open spec fn view_tuple(&self) -> (Severity, Seq<char>, Seq<char>) {
        (self.severity, self.code@, self.message@)
    }
}

/// The error reported when the required part `part` is absent.
pub open spec fn missing_part(pkg: &Package, part: Seq<char>, code: Seq<char>) -> Seq<(Severity, Seq<char>, Seq<char>)> {
    if pkg.inventory.has(part) {
        Seq::empty()
    } else {
        seq![(Severity::Error, code, "Required DOCX part is missing: "@ + part)]
    }
}

/// The findings for `pkg`, in order.
pub open spec fn structural_findings(pkg: &Package) -> Seq<(Severity, Seq<char>, Seq<char>)> {
    missing_part(pkg, "[Content_Types].xml"@, "MISSING_CONTENT_TYPES"@) + missing_part(
        pkg,
        "word/document.xml"@,
        "MISSING_DOCUMENT_XML"@,
    ) + missing_part(pkg, "word/_rels/document.xml.rels"@, "MISSING_DOCUMENT_RELS"@) + if pkg.inventory.has(
        "_rels/.rels"@,
    ) {
        Seq::empty()
    } else {
        seq![
            (
                Severity::Warning,
                "MISSING_ROOT_RELS"@,
                "Root relationship part `_rels/.rels` is absent"@,
            ),
        ]
    }
}

fn check_required(pkg: &Package, part: &'static str, code: &'static str, issues: &mut Vec<ValidationIssue>)
    ensures
        final(issues)@.map_values(|i: ValidationIssue| i.view_tuple()) == old(issues)@.map_values(
            |i: ValidationIssue| i.view_tuple(),
        ) + missing_part(pkg, part@, code@),
{
    if !pkg.inventory.contains_key(part) {
        let issue = ValidationIssue {
            severity: Severity::Error,
            code,
            message: concat_message("Required DOCX part is missing: ", &chars_of(part)),
        };
        issues.push(issue);
        assert(issues@.map_values(|i: ValidationIssue| i.view_tuple()) =~= old(issues)@.map_values(
            |i: ValidationIssue| i.view_tuple(),
        ) + missing_part(pkg, part@, code@));
    } else {
        assert(issues@.map_values(|i: ValidationIssue| i.view_tuple()) =~= old(issues)@.map_values(
            |i: ValidationIssue| i.view_tuple(),
        ) + missing_part(pkg, part@, code@));
    }
}

/// Checks that the package holds `[Content_Types].xml`, `word/document.xml` and
/// `word/_rels/document.xml.rels` (errors), and `_rels/.rels` (warning).
pub fn check_structural(package: &Package) -> (issues: Vec<ValidationIssue>)
    ensures
        issues@.map_values(|i: ValidationIssue| i.view_tuple()) == structural_findings(package),
{
    let mut issues: Vec<ValidationIssue> = Vec::new();
    assert(issues@.map_values(|i: ValidationIssue| i.view_tuple()) =~= Seq::empty());
    check_required(package, "[Content_Types].xml", "MISSING_CONTENT_TYPES", &mut issues);
    check_required(package, "word/document.xml", "MISSING_DOCUMENT_XML", &mut issues);
    check_required(package, "word/_rels/document.xml.rels", "MISSING_DOCUMENT_RELS", &mut issues);
    let ghost before = issues@.map_values(|i: ValidationIssue| i.view_tuple());
    if !package.inventory.contains_key("_rels/.rels") {
        issues.push(
            ValidationIssue {
                severity: Severity::Warning,
                code: "MISSING_ROOT_RELS",
                message: String::from_str("Root relationship part `_rels/.rels` is absent"),
            },
        );
    }
    assert(issues@.map_values(|i: ValidationIssue| i.view_tuple()) =~= structural_findings(package));
    issues
}

} // verus!
