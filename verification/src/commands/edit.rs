//! The `edit` commands: replace, insert, delete and find-replace, each
//! turned into a one-operation job.

use vstd::prelude::*;

use crate::job::{ContentBlock, Job, Operation, ParagraphContent, Position, Scope, Target};

verus! {

/// The `edit` subcommands.
#[derive(Debug)]
pub enum EditCommand {
    Replace(ReplaceArgs),
    Insert(InsertArgs),
    Delete(DeleteArgs),
    FindReplace(FindReplaceArgs),
}

/// Replace the target's content with new text.
#[derive(Debug)]
pub struct ReplaceArgs {
    pub input: String,
    pub output: String,
    /// The target selector, as JSON.
    pub target: String,
    pub content: String,
}

/// Insert a paragraph of text before or after the target.
#[derive(Debug)]
pub struct InsertArgs {
    pub input: String,
    pub output: String,
    pub target: String,
    pub position: PositionArg,
    pub content: String,
}

/// Delete the target.
#[derive(Debug)]
pub struct DeleteArgs {
    pub input: String,
    pub output: String,
    pub target: String,
}

/// Replace one or all occurrences of a string.
#[derive(Debug)]
pub struct FindReplaceArgs {
    pub input: String,
    pub output: String,
    pub find: String,
    pub replace: String,
    pub scope: ScopeArg,
}

/// Where to insert, relative to the target.
#[derive(Clone, Copy, Debug, PartialEq, Eq, Structural)]
pub enum PositionArg {
    Before,
    After,
}

/// Which occurrences to replace.
#[derive(Clone, Copy, Debug, PartialEq, Eq, Structural)]
pub enum ScopeArg {
    All,
    First,
}

/// The position a `PositionArg` names.
pub open spec fn position_of(p: PositionArg) -> Position {
    match p {
        PositionArg::Before => Position::Before,
        PositionArg::After => Position::After,
    }
}

/// The scope a `ScopeArg` names.
pub open spec fn scope_of(s: ScopeArg) -> Scope {
    match s {
        ScopeArg::All => Scope::All,
        ScopeArg::First => Scope::First,
    }
}

impl From<PositionArg> for Position {
    fn from(p: PositionArg) -> (r: Position)
        ensures
            r == position_of(p),
    {
        match p {
            PositionArg::Before => Position::Before,
            PositionArg::After => Position::After,
        }
    }
}

impl vstd::std_specs::convert::FromSpecImpl<PositionArg> for Position {
    open spec fn obeys_from_spec() -> bool {
        true
    }

    open spec fn from_spec(p: PositionArg) -> Position {
        position_of(p)
    }
}

impl From<ScopeArg> for Scope {
    fn from(s: ScopeArg) -> (r: Scope)
        ensures
            r == scope_of(s),
    {
        match s {
            ScopeArg::All => Scope::All,
            ScopeArg::First => Scope::First,
        }
    }
}

impl vstd::std_specs::convert::FromSpecImpl<ScopeArg> for Scope {
    open spec fn obeys_from_spec() -> bool {
        true
    }

    open spec fn from_spec(s: ScopeArg) -> Scope {
        scope_of(s)
    }
}

/// The one content block of an insertion: a paragraph of plain text.
pub open spec fn text_block(content: String) -> ContentBlock {
    ContentBlock::Paragraph { paragraph: ParagraphContent::Text(content) }
}

/// A job of the one operation `op`.
pub open spec fn single(j: Job, op: Operation) -> bool {
    j.operations@ == seq![op]
}

/// A list of the one operation `op`.
pub(crate) fn one_op(op: Operation) -> (v: Vec<Operation>)
    ensures
        v@ == seq![op],
{
    let mut v: Vec<Operation> = Vec::new();
    v.push(op);
    assert(v@ =~= seq![op]);
    v
}

/// The content of an insertion: one paragraph of plain text.
pub(crate) fn text_blocks(content: String) -> (v: Vec<ContentBlock>)
    ensures
        v@ == seq![text_block(content)],
{
    let mut v: Vec<ContentBlock> = Vec::new();
    v.push(ContentBlock::Paragraph { paragraph: ParagraphContent::Text(content) });
    assert(v@ =~= seq![text_block(content)]);
    v
}

/// `op` inserts one paragraph of `content` at `p` relative to `t`.
pub open spec fn is_insert(op: Operation, t: Target, p: Position, content: String) -> bool {
    match op {
        Operation::EditInsert { target, position, content: c } => target == t && position == p && c@ == seq![
            text_block(content),
        ],
        _ => false,
    }
}

/// `r` is the replace job for `target` and `content`, or the error that
/// `target` holds.
pub open spec fn replace_job(target: Result<Target, String>, content: String, r: Result<Job, String>) -> bool {
    match target {
        Ok(t) => r matches Ok(j) && single(j, Operation::EditReplace { target: t, content }),
        Err(e) => r == Err::<Job, String>(e),
    }
}

/// `r` is the insert job for `target`, `position` and `content`.
pub open spec fn insert_job(target: Result<Target, String>, position: Position, content: String, r: Result<Job, String>) -> bool {
    match target {
        Ok(t) => r matches Ok(j) && j.operations@.len() == 1 && is_insert(j.operations@[0], t, position, content),
        Err(e) => r == Err::<Job, String>(e),
    }
}

/// `r` is the delete job for `target`.
pub open spec fn delete_job(target: Result<Target, String>, r: Result<Job, String>) -> bool {
    match target {
        Ok(t) => r matches Ok(j) && single(j, Operation::EditDelete { target: t }),
        Err(e) => r == Err::<Job, String>(e),
    }
}

/// `r` is the find-replace job for `find`, `replace` and `scope`.
pub open spec fn find_replace_job(find: String, replace: String, scope: Scope, r: Result<Job, String>) -> bool {
    r matches Ok(j) && single(j, Operation::EditFindReplace { find, replace, scope })
}

/// The replace job: the target (as parsed from `args.target`) and the new
/// text. A target that did not parse is passed on as the error.
pub fn build_replace(args: ReplaceArgs, target: Result<Target, String>) -> (r: Result<Job, String>)
    ensures
        replace_job(target, args.content, r),
{
    let target = match target {
        Ok(t) => t,
        Err(e) => return Err(e),
    };
    Ok(Job { operations: one_op(Operation::EditReplace { target, content: args.content }) })
}

/// The insert job: the target, the position, and one paragraph of the text.
pub fn build_insert(args: InsertArgs, target: Result<Target, String>) -> (r: Result<Job, String>)
    ensures
        insert_job(target, position_of(args.position), args.content, r),
{
    let target = match target {
        Ok(t) => t,
        Err(e) => return Err(e),
    };
    Ok(
        Job {
            operations: one_op(Operation::EditInsert {
                    target,
                    position: Position::from(args.position),
                    content: text_blocks(args.content),
                }),
        },
    )
}

/// The delete job for the target.
pub fn build_delete(args: DeleteArgs, target: Result<Target, String>) -> (r: Result<Job, String>)
    ensures
        delete_job(target, r),
{
    let target = match target {
        Ok(t) => t,
        Err(e) => return Err(e),
    };
    Ok(Job { operations: one_op(Operation::EditDelete { target }) })
}

/// The find-replace job.
pub fn build_find_replace(args: FindReplaceArgs) -> (r: Result<Job, String>)
    ensures
        find_replace_job(args.find, args.replace, scope_of(args.scope), r),
{
    Ok(
        Job {
            operations: one_op(Operation::EditFindReplace { find: args.find, replace: args.replace, scope: Scope::from(args.scope) }),
        },
    )
}

/// What a command runs: its label, its input and output files, and its job
/// (or the reason there is none).
#[derive(Debug)]
pub struct JobRun {
    pub label: String,
    pub input: String,
    pub output: String,
    pub job: Result<Job, String>,
}

impl EditCommand {
    /// The target selector the command names, when it names one.
    pub fn target_text(&self) -> (r: Option<&str>)
        ensures
            match self {
                EditCommand::Replace(a) => r matches Some(s) && s@ == a.target@,
                EditCommand::Insert(a) => r matches Some(s) && s@ == a.target@,
                EditCommand::Delete(a) => r matches Some(s) && s@ == a.target@,
                EditCommand::FindReplace(_) => r is None,
            },
    {
        match self {
            EditCommand::Replace(a) => Some(a.target.as_str()),
            EditCommand::Insert(a) => Some(a.target.as_str()),
            EditCommand::Delete(a) => Some(a.target.as_str()),
            EditCommand::FindReplace(_) => None,
        }
    }
}

/// What an edit command runs, given its target selector as parsed (not
/// looked at by find-replace).
pub fn run(cmd: EditCommand, target: Result<Target, String>) -> (r: JobRun)
    ensures
        match cmd {
            EditCommand::Replace(a) => r.label@ == "edit.replace"@ && r.input@ == a.input@ && r.output@ == a.output@
                && replace_job(target, a.content, r.job),
            EditCommand::Insert(a) => r.label@ == "edit.insert"@ && r.input@ == a.input@ && r.output@ == a.output@
                && insert_job(target, position_of(a.position), a.content, r.job),
            EditCommand::Delete(a) => r.label@ == "edit.delete"@ && r.input@ == a.input@ && r.output@ == a.output@
                && delete_job(target, r.job),
            EditCommand::FindReplace(a) => r.label@ == "edit.find-replace"@ && r.input@ == a.input@ && r.output@
                == a.output@ && find_replace_job(a.find, a.replace, scope_of(a.scope), r.job),
        },
{
    match cmd {
        EditCommand::Replace(a) => {
            let (input, output) = (a.input.clone(), a.output.clone());
            JobRun { label: String::from_str("edit.replace"), input, output, job: build_replace(a, target) }
        },
        EditCommand::Insert(a) => {
            let (input, output) = (a.input.clone(), a.output.clone());
            JobRun { label: String::from_str("edit.insert"), input, output, job: build_insert(a, target) }
        },
        EditCommand::Delete(a) => {
            let (input, output) = (a.input.clone(), a.output.clone());
            JobRun { label: String::from_str("edit.delete"), input, output, job: build_delete(a, target) }
        },
        EditCommand::FindReplace(a) => {
            let (input, output) = (a.input.clone(), a.output.clone());
            JobRun { label: String::from_str("edit.find-replace"), input, output, job: build_find_replace(a) }
        },
    }
}

} // verus!
