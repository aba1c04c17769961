//! The parts of a command's reply that the library fills in: the command's
//! name, its warnings, the time it took and, on failure, the error's details.

use std::time::Instant;

use vstd::prelude::*;

use crate::error::{DocliError, ErrorCode, ErrorContext};
use crate::text::string_from_chars;

verus! {

#[verifier::external_type_specification]
#[verifier::external_body]
pub struct ExInstant(std::time::Instant);

/// The current instant. Calls `Instant::now`.
#[verifier::external_body]
fn now() -> Instant {
    Instant::now()
}

/// Whole milliseconds since `start`. Calls `Instant::elapsed`.
#[verifier::external_body]
fn elapsed_millis(start: &Instant) -> u64 {
    start.elapsed().as_millis() as u64
}

/// Collects a command's name and warnings from the moment it starts.
pub struct EnvelopeBuilder {
    command: String,
    warnings: Vec<String>,
    started_at: Instant,
}

impl EnvelopeBuilder {
    pub closed spec fn command_name(&self) -> Seq<char> {
        self.command@
    }

    pub closed spec fn warning_list(&self) -> Seq<Seq<char>> {
        self.warnings@.map_values(|w: String| w@)
    }

    /// A builder for `command`, started now, with no warnings.
    pub fn new(command: &str) -> (r: EnvelopeBuilder)
        ensures
            r.command_name() == command@,
            r.warning_list() == Seq::<Seq<char>>::empty(),
    {
        let r = EnvelopeBuilder { command: String::from_str(command), warnings: Vec::new(), started_at: now() };
        assert(r.warning_list() =~= Seq::<Seq<char>>::empty());
        r
    }

    /// Records a warning after those already recorded.
    pub fn warn(&mut self, warning: &str)
        ensures
            final(self).command_name() == old(self).command_name(),
            final(self).warning_list() == old(self).warning_list().push(warning@),
    {
        let ghost before = self.warning_list();
        self.warnings.push(String::from_str(warning));
        assert(self.warning_list() =~= before.push(warning@));
    }

    /// The command's name.
    pub fn command(&self) -> (r: &str)
        ensures
            r@ == self.command_name(),
    {
        self.command.as_str()
    }

    /// The warnings recorded so far.
    pub fn warnings(&self) -> (r: &Vec<String>)
        ensures
            r@.map_values(|w: String| w@) == self.warning_list(),
    {
        &self.warnings
    }

    /// Whole milliseconds since the builder was made.
    pub fn elapsed_ms(&self) -> u64 {
        elapsed_millis(&self.started_at)
    }
}

/// What a failure reply says about the error: its code, message and context.
#[derive(Debug)]
pub struct ErrorDetail {
    pub code: ErrorCode,
    pub message: String,
    pub context: Option<ErrorContext>,
}

impl ErrorDetail {
    /// The details of `error`.
    pub fn from_error(error: &DocliError) -> (r: ErrorDetail)
        ensures
            r.code == error.spec_code(),
            r.message@ == error.message_text(),
            r.context.is_some() == error.context_key().is_some(),
            r.context matches Some(c) ==> c.key@ == error.context_key().unwrap() && c.value@ == error.payload(),
    {
        ErrorDetail { code: error.code(), message: error.message(), context: error.context() }
    }
}

} // verus!
