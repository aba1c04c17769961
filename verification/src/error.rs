//! Error codes and the library's error type.

use vstd::prelude::*;

verus! {

/// Stable machine-readable error codes.
#[derive(Clone, Copy, Debug, PartialEq, Eq, Structural)]
pub enum ErrorCode {
    FileNotFound,
    InvalidDocx,
    InvalidSpec,
    InvalidJob,
    InvalidTarget,
    InvalidOperation,
    RefNotFound,
    ValidationFailed,
    InvariantViolation,
    IdCollision,
    DependencyMissing,
    TemplateNotFound,
    TemplateVarMissing,
    CommitFailed,
    RevalidationFailed,
}

/// Errors raised by the document operations.
#[derive(Debug)]
pub enum DocliError {
    FileNotFound { path: String },
    InvalidDocx { message: String },
    InvalidSpec { message: String },
    InvalidJob { message: String },
    InvalidTarget { message: String },
    InvalidOperation { message: String },
    RefNotFound { reference: String },
    ValidationFailed { message: String },
    InvariantViolation { message: String },
    IdCollision { message: String },
    DependencyMissing { dependency: String },
    TemplateNotFound { template: String },
    TemplateVarMissing { variable: String },
    CommitFailed { message: String },
    RevalidationFailed { message: String },
}

/// The one key/value pair of context that some errors carry.
#[derive(Debug)]
pub struct ErrorContext {
    pub key: String,
    pub value: String,
}

impl DocliError {
    /// The code that belongs to each variant.
    pub open spec fn spec_code(&self) -> ErrorCode {
        match self {
            DocliError::FileNotFound { .. } => ErrorCode::FileNotFound,
            DocliError::InvalidDocx { .. } => ErrorCode::InvalidDocx,
            DocliError::InvalidSpec { .. } => ErrorCode::InvalidSpec,
            DocliError::InvalidJob { .. } => ErrorCode::InvalidJob,
            DocliError::InvalidTarget { .. } => ErrorCode::InvalidTarget,
            DocliError::InvalidOperation { .. } => ErrorCode::InvalidOperation,
            DocliError::RefNotFound { .. } => ErrorCode::RefNotFound,
            DocliError::ValidationFailed { .. } => ErrorCode::ValidationFailed,
            DocliError::InvariantViolation { .. } => ErrorCode::InvariantViolation,
            DocliError::IdCollision { .. } => ErrorCode::IdCollision,
            DocliError::DependencyMissing { .. } => ErrorCode::DependencyMissing,
            DocliError::TemplateNotFound { .. } => ErrorCode::TemplateNotFound,
            DocliError::TemplateVarMissing { .. } => ErrorCode::TemplateVarMissing,
            DocliError::CommitFailed { .. } => ErrorCode::CommitFailed,
            DocliError::RevalidationFailed { .. } => ErrorCode::RevalidationFailed,
        }
    }

    /// The text that the variant carries (message, path, reference or name).
    pub open spec fn payload(&self) -> Seq<char> {
        match self {
            DocliError::FileNotFound { path } => path@,
            DocliError::InvalidDocx { message } => message@,
            DocliError::InvalidSpec { message } => message@,
            DocliError::InvalidJob { message } => message@,
            DocliError::InvalidTarget { message } => message@,
            DocliError::InvalidOperation { message } => message@,
            DocliError::RefNotFound { reference } => reference@,
            DocliError::ValidationFailed { message } => message@,
            DocliError::InvariantViolation { message } => message@,
            DocliError::IdCollision { message } => message@,
            DocliError::DependencyMissing { dependency } => dependency@,
            DocliError::TemplateNotFound { template } => template@,
            DocliError::TemplateVarMissing { variable } => variable@,
            DocliError::CommitFailed { message } => message@,
            DocliError::RevalidationFailed { message } => message@,
        }
    }

    /// The error as a code and the text it carries.
    pub open spec fn view_pair(&self) -> (ErrorCode, Seq<char>) {
        (self.spec_code(), self.payload())
    }

    /// The machine-readable code of this error.
    pub fn code(&self) -> (c: ErrorCode)
        ensures
            c == self.spec_code(),
    {
        match self {
            DocliError::FileNotFound { .. } => ErrorCode::FileNotFound,
            DocliError::InvalidDocx { .. } => ErrorCode::InvalidDocx,
            DocliError::InvalidSpec { .. } => ErrorCode::InvalidSpec,
            DocliError::InvalidJob { .. } => ErrorCode::InvalidJob,
            DocliError::InvalidTarget { .. } => ErrorCode::InvalidTarget,
            DocliError::InvalidOperation { .. } => ErrorCode::InvalidOperation,
            DocliError::RefNotFound { .. } => ErrorCode::RefNotFound,
            DocliError::ValidationFailed { .. } => ErrorCode::ValidationFailed,
            DocliError::InvariantViolation { .. } => ErrorCode::InvariantViolation,
            DocliError::IdCollision { .. } => ErrorCode::IdCollision,
            DocliError::DependencyMissing { .. } => ErrorCode::DependencyMissing,
            DocliError::TemplateNotFound { .. } => ErrorCode::TemplateNotFound,
            DocliError::TemplateVarMissing { .. } => ErrorCode::TemplateVarMissing,
            DocliError::CommitFailed { .. } => ErrorCode::CommitFailed,
            DocliError::RevalidationFailed { .. } => ErrorCode::RevalidationFailed,
        }
    }

    /// The context key that the variant reports, if any.
    pub open spec fn context_key(&self) -> Option<Seq<char>> {
        match self {
            DocliError::FileNotFound { .. } => Some("path"@),
            DocliError::RefNotFound { .. } => Some("reference"@),
            DocliError::DependencyMissing { .. } => Some("dependency"@),
            DocliError::TemplateNotFound { .. } => Some("template"@),
            DocliError::TemplateVarMissing { .. } => Some("variable"@),
            _ => None,
        }
    }

    /// Structured context: the single field of the variants that name a
    /// path, reference, dependency, template or variable.
    pub fn context(&self) -> (r: Option<ErrorContext>)
        ensures
            r.is_some() == self.context_key().is_some(),
            r matches Some(c) ==> c.key@ == self.context_key().unwrap() && c.value@
                == self.payload(),
    {
        match self {
            DocliError::FileNotFound { path } => Some(
                ErrorContext { key: String::from_str("path"), value: path.clone() },
            ),
            DocliError::RefNotFound { reference } => Some(
                ErrorContext { key: String::from_str("reference"), value: reference.clone() },
            ),
            DocliError::DependencyMissing { dependency } => Some(
                ErrorContext { key: String::from_str("dependency"), value: dependency.clone() },
            ),
            DocliError::TemplateNotFound { template } => Some(
                ErrorContext { key: String::from_str("template"), value: template.clone() },
            ),
            DocliError::TemplateVarMissing { variable } => Some(
                ErrorContext { key: String::from_str("variable"), value: variable.clone() },
            ),
            _ => None,
        }
    }
}

impl DocliError {
    /// The human-readable message of this error.
    pub open spec fn message_text(&self) -> Seq<char> {
        match self {
            DocliError::FileNotFound { path } => "Input file does not exist: "@ + path@,
            DocliError::RefNotFound { reference } => "Reference not found: "@ + reference@,
            DocliError::DependencyMissing { dependency } => "Missing dependency: "@ + dependency@,
            DocliError::TemplateNotFound { template } => "Template not found: "@ + template@,
            DocliError::TemplateVarMissing { variable } => "Template variable missing: "@ + variable@,
            _ => self.payload(),
        }
    }

    /// The human-readable message of this error: the text it carries, after
    /// a short lead for the variants that name a path, reference, dependency,
    /// template or variable.
    pub fn message(&self) -> (r: String)
        ensures
            r@ == self.message_text(),
    {
        let (lead, text) = match self {
            DocliError::FileNotFound { path } => ("Input file does not exist: ", path),
            DocliError::InvalidDocx { message } => ("", message),
            DocliError::InvalidSpec { message } => ("", message),
            DocliError::InvalidJob { message } => ("", message),
            DocliError::InvalidTarget { message } => ("", message),
            DocliError::InvalidOperation { message } => ("", message),
            DocliError::RefNotFound { reference } => ("Reference not found: ", reference),
            DocliError::ValidationFailed { message } => ("", message),
            DocliError::InvariantViolation { message } => ("", message),
            DocliError::IdCollision { message } => ("", message),
            DocliError::DependencyMissing { dependency } => ("Missing dependency: ", dependency),
            DocliError::TemplateNotFound { template } => ("Template not found: ", template),
            DocliError::TemplateVarMissing { variable } => ("Template variable missing: ", variable),
            DocliError::CommitFailed { message } => ("", message),
            DocliError::RevalidationFailed { message } => ("", message),
        };
        proof {
            reveal_strlit("");
        }
        crate::text::join3(lead, text.as_str(), "")
    }
}

} // verus!
