//! Findings of the package validators.

use vstd::prelude::*;

verus! {

/// How serious a finding is.
#[derive(Clone, Copy, Debug, PartialEq, Eq, Structural)]
pub enum ValidationSeverity {
    Warning,
    Error,
}

/// One finding: a stable code, a message, its severity and the part concerned.
#[derive(Debug)]
pub struct ValidationIssue {
    pub code: String,
    pub message: String,
    pub severity: ValidationSeverity,
    pub part: Option<String>,
}

/// A finding as plain values: code, message, severity, part.
pub type IssueView = (Seq<char>, Seq<char>, ValidationSeverity, Option<Seq<char>>);

pub open spec fn opt_view(o: Option<&str>) -> Option<Seq<char>> {
    match o {
        Some(s) => Some(s@),
        None => None,
    }
}

impl ValidationIssue {
    pub open spec fn view_tuple(&self) -> IssueView {
        (
            self.code@,
            self.message@,
            self.severity,
            match self.part {
                Some(p) => Some(p@),
                None => None,
            },
        )
    }

    fn make(code: &str, message: String, severity: ValidationSeverity, part: Option<&str>) -> (r: Self)
        ensures
            r.view_tuple() == (code@, message@, severity, opt_view(part)),
    {
        let p = match part {
            Some(s) => Some(String::from_str(s)),
            None => None,
        };
        ValidationIssue { code: String::from_str(code), message, severity, part: p }
    }

    /// A finding of severity error.
    pub fn error(code: &str, message: String, part: Option<&str>) -> (r: Self)
        ensures
            r.view_tuple() == (code@, message@, ValidationSeverity::Error, opt_view(part)),
    {
        Self::make(code, message, ValidationSeverity::Error, part)
    }

    /// A finding of severity warning.
    pub fn warning(code: &str, message: String, part: Option<&str>) -> (r: Self)
        ensures
            r.view_tuple() == (code@, message@, ValidationSeverity::Warning, opt_view(part)),
    {
        Self::make(code, message, ValidationSeverity::Warning, part)
    }
}

pub open spec fn issues_view(v: Seq<ValidationIssue>) -> Seq<IssueView> {
    v.map_values(|i: ValidationIssue| i.view_tuple())
}

/// A single finding on `part`, as plain values.
pub open spec fn finding(code: Seq<char>, message: Seq<char>, severity: ValidationSeverity, part: Seq<char>) -> Seq<
    IssueView,
> {
    seq![(code, message, severity, Some(part))]
}

/// Appends one finding.
pub(crate) fn push_finding(
    issues: &mut Vec<ValidationIssue>,
    code: &str,
    message: String,
    severity: ValidationSeverity,
    part: &str,
)
    ensures
        issues_view(final(issues)@) == issues_view(old(issues)@) + finding(code@, message@, severity, part@),
{
    let ghost before = issues_view(issues@);
    let issue = match severity {
        ValidationSeverity::Error => ValidationIssue::error(code, message, Some(part)),
        ValidationSeverity::Warning => ValidationIssue::warning(code, message, Some(part)),
    };
    issues.push(issue);
    assert(issues_view(issues@) =~= before + finding(code@, message@, severity, part@));
}

} // verus!
