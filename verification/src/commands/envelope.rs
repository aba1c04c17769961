//! How command output is written.

use vstd::prelude::*;

verus! {

/// The format of the envelope printed for a command.
#[derive(Clone, Copy, Debug, PartialEq, Eq, Structural)]
pub enum OutputFormat {
    Json,
    Yaml,
    Text,
}

} // verus!
