//! The `run` command: a job read from a file or standard input.

use vstd::prelude::*;

use crate::text::{chars_of, is_unicode_ws, is_unicode_ws_exec, trim_front};

verus! {

/// Run the job in `job` (a path, or `-` for standard input) on `input`,
/// writing `output`.
#[derive(Debug)]
pub struct RunArgs {
    pub job: String,
    pub input: String,
    pub output: String,
}

/// The syntax a job text is read in.
#[derive(Clone, Copy, Debug, PartialEq, Eq, Structural)]
pub enum JobSyntax {
    Json,
    Yaml,
}

/// JSON when the text, past leading white space, opens with `{` or `[`;
/// YAML otherwise.
pub open spec fn syntax_of(raw: Seq<char>) -> JobSyntax {
    let t = trim_front(raw);
    if t.len() > 0 && (t[0] == '{' || t[0] == '[') {
        JobSyntax::Json
    } else {
        JobSyntax::Yaml
    }
}

/// The syntax to read a job text in.
pub fn job_syntax(raw: &str) -> (r: JobSyntax)
    ensures
        r == syntax_of(raw@),
{
    let cs = chars_of(raw);
    let mut i: usize = 0;
    assert(raw@.subrange(0, raw@.len() as int) =~= raw@);
    while i < cs.len() && is_unicode_ws_exec(cs[i])
        invariant
            0 <= i <= cs.len(),
            cs@ == raw@,
            trim_front(raw@) == trim_front(raw@.subrange(i as int, raw@.len() as int)),
        decreases cs.len() - i,
    {
        assert(raw@.subrange(i as int, raw@.len() as int).drop_first() =~= raw@.subrange(i + 1, raw@.len() as int));
        i = i + 1;
    }
    let ghost t = raw@.subrange(i as int, raw@.len() as int);
    assert(t.len() > 0 ==> t[0] == cs@[i as int]);
    if i < cs.len() && (cs[i] == '{' || cs[i] == '[') {
        JobSyntax::Json
    } else {
        JobSyntax::Yaml
    }
}

} // verus!
