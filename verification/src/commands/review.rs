//! The `review` commands: comment, tracked replace, tracked insert and
//! tracked delete, each turned into a one-operation job.

use vstd::prelude::*;

use crate::commands::edit::{one_op, single, text_block, text_blocks, JobRun};
use crate::job::{ContentBlock, Job, Operation, Position, Target};

verus! {

/// The `review` subcommands.
#[derive(Debug)]
pub enum ReviewCommand {
    Comment(CommentArgs),
    TrackReplace(TrackReplaceArgs),
    TrackInsert(TrackInsertArgs),
    TrackDelete(TrackDeleteArgs),
}

/// Comment on the target.
#[derive(Debug)]
pub struct CommentArgs {
    pub input: String,
    pub output: String,
    /// The target selector, as JSON.
    pub target: String,
    pub text: String,
}

/// Replace the target's content, as a tracked change.
#[derive(Debug)]
pub struct TrackReplaceArgs {
    pub input: String,
    pub output: String,
    pub target: String,
    pub content: String,
}

/// Insert a paragraph of text before or after the target, as a tracked change.
#[derive(Debug)]
pub struct TrackInsertArgs {
    pub input: String,
    pub output: String,
    pub target: String,
    pub position: PositionArg,
    pub content: String,
}

/// Delete the target, as a tracked change.
#[derive(Debug)]
pub struct TrackDeleteArgs {
    pub input: String,
    pub output: String,
    pub target: String,
}

/// Where to insert, relative to the target.
#[derive(Clone, Copy, Debug, PartialEq, Eq, Structural)]
pub enum PositionArg {
    Before,
    After,
}

/// The position a `PositionArg` names.
pub open spec fn position_of(p: PositionArg) -> Position {
    match p {
        PositionArg::Before => Position::Before,
        PositionArg::After => Position::After,
    }
}

impl From<PositionArg> for Position {
    fn from(p: PositionArg) -> (r: Position)
        ensures
            r == position_of(p),
    {
        match p {
            PositionArg::Before => Position::Before,
            PositionArg::After => Position::After,
        }
    }
}

impl vstd::std_specs::convert::FromSpecImpl<PositionArg> for Position {
    open spec fn obeys_from_spec() -> bool {
        true
    }

    open spec fn from_spec(p: PositionArg) -> Position {
        position_of(p)
    }
}

/// `op` inserts one paragraph of `content` at `p` relative to `t`.
pub open spec fn is_track_insert(op: Operation, t: Target, p: Position, content: String) -> bool {
    match op {
        Operation::ReviewTrackInsert { target, position, content: c } => target == t && position == p && c@ == seq![
            text_block(content),
        ],
        _ => false,
    }
}

/// `r` is the comment job for `target` and `text`, or the error that
/// `target` holds.
pub open spec fn comment_job(target: Result<Target, String>, text: String, r: Result<Job, String>) -> bool {
    match target {
        Ok(t) => r matches Ok(j) && single(j, Operation::ReviewComment { target: t, text, parent: None }),
        Err(e) => r == Err::<Job, String>(e),
    }
}

/// `r` is the tracked-replace job for `target` and `content`.
pub open spec fn track_replace_job(target: Result<Target, String>, content: String, r: Result<Job, String>) -> bool {
    match target {
        Ok(t) => r matches Ok(j) && single(j, Operation::ReviewTrackReplace { target: t, content }),
        Err(e) => r == Err::<Job, String>(e),
    }
}

/// `r` is the tracked-insert job for `target`, `position` and `content`.
pub open spec fn track_insert_job(target: Result<Target, String>, position: Position, content: String, r: Result<Job, String>) -> bool {
    match target {
        Ok(t) => r matches Ok(j) && j.operations@.len() == 1 && is_track_insert(j.operations@[0], t, position, content),
        Err(e) => r == Err::<Job, String>(e),
    }
}

/// `r` is the tracked-delete job for `target`.
pub open spec fn track_delete_job(target: Result<Target, String>, r: Result<Job, String>) -> bool {
    match target {
        Ok(t) => r matches Ok(j) && single(j, Operation::ReviewTrackDelete { target: t }),
        Err(e) => r == Err::<Job, String>(e),
    }
}

/// The comment job: the target and the text, with no parent comment.
pub fn build_comment(args: CommentArgs, target: Result<Target, String>) -> (r: Result<Job, String>)
    ensures
        comment_job(target, args.text, r),
{
    let target = match target {
        Ok(t) => t,
        Err(e) => return Err(e),
    };
    Ok(Job { operations: one_op(Operation::ReviewComment { target, text: args.text, parent: None }) })
}

/// The tracked-replace job.
pub fn build_track_replace(args: TrackReplaceArgs, target: Result<Target, String>) -> (r: Result<Job, String>)
    ensures
        track_replace_job(target, args.content, r),
{
    let target = match target {
        Ok(t) => t,
        Err(e) => return Err(e),
    };
    Ok(Job { operations: one_op(Operation::ReviewTrackReplace { target, content: args.content }) })
}

/// The tracked-insert job: the target, the position, and one paragraph of the text.
pub fn build_track_insert(args: TrackInsertArgs, target: Result<Target, String>) -> (r: Result<Job, String>)
    ensures
        track_insert_job(target, position_of(args.position), args.content, r),
{
    let target = match target {
        Ok(t) => t,
        Err(e) => return Err(e),
    };
    Ok(
        Job {
            operations: one_op(Operation::ReviewTrackInsert {
                    target,
                    position: Position::from(args.position),
                    content: text_blocks(args.content),
                }),
        },
    )
}

/// The tracked-delete job for the target.
pub fn build_track_delete(args: TrackDeleteArgs, target: Result<Target, String>) -> (r: Result<Job, String>)
    ensures
        track_delete_job(target, r),
{
    let target = match target {
        Ok(t) => t,
        Err(e) => return Err(e),
    };
    Ok(Job { operations: one_op(Operation::ReviewTrackDelete { target }) })
}

impl ReviewCommand {
    /// The target selector the command names.
    pub fn target_text(&self) -> (r: &str)
        ensures
            r@ == match self {
                ReviewCommand::Comment(a) => a.target@,
                ReviewCommand::TrackReplace(a) => a.target@,
                ReviewCommand::TrackInsert(a) => a.target@,
                ReviewCommand::TrackDelete(a) => a.target@,
            },
    {
        match self {
            ReviewCommand::Comment(a) => a.target.as_str(),
            ReviewCommand::TrackReplace(a) => a.target.as_str(),
            ReviewCommand::TrackInsert(a) => a.target.as_str(),
            ReviewCommand::TrackDelete(a) => a.target.as_str(),
        }
    }
}

/// What a review command runs, given its target selector as parsed.
pub fn run(cmd: ReviewCommand, target: Result<Target, String>) -> (r: JobRun)
    ensures
        match cmd {
            ReviewCommand::Comment(a) => r.label@ == "review.comment"@ && r.input@ == a.input@ && r.output@
                == a.output@ && comment_job(target, a.text, r.job),
            ReviewCommand::TrackReplace(a) => r.label@ == "review.track-replace"@ && r.input@ == a.input@
                && r.output@ == a.output@ && track_replace_job(target, a.content, r.job),
            ReviewCommand::TrackInsert(a) => r.label@ == "review.track-insert"@ && r.input@ == a.input@
                && r.output@ == a.output@ && track_insert_job(target, position_of(a.position), a.content, r.job),
            ReviewCommand::TrackDelete(a) => r.label@ == "review.track-delete"@ && r.input@ == a.input@
                && r.output@ == a.output@ && track_delete_job(target, r.job),
        },
{
    match cmd {
        ReviewCommand::Comment(a) => {
            let (input, output) = (a.input.clone(), a.output.clone());
            JobRun { label: String::from_str("review.comment"), input, output, job: build_comment(a, target) }
        },
        ReviewCommand::TrackReplace(a) => {
            let (input, output) = (a.input.clone(), a.output.clone());
            JobRun { label: String::from_str("review.track-replace"), input, output, job: build_track_replace(a, target) }
        },
        ReviewCommand::TrackInsert(a) => {
            let (input, output) = (a.input.clone(), a.output.clone());
            JobRun { label: String::from_str("review.track-insert"), input, output, job: build_track_insert(a, target) }
        },
        ReviewCommand::TrackDelete(a) => {
            let (input, output) = (a.input.clone(), a.output.clone());
            JobRun { label: String::from_str("review.track-delete"), input, output, job: build_track_delete(a, target) }
        },
    }
}

} // verus!
