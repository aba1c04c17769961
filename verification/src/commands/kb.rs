//! The `kb` commands: list the entries of a category, resolve a reference.

use vstd::prelude::*;

use crate::error::{DocliError, ErrorCode};
use crate::kb::{kb_path, KbResolver};

verus! {

/// The `kb` subcommands.
#[derive(Debug)]
pub enum KbCommand {
    List(KbListArgs),
    Get(KbGetArgs),
}

/// List the entries of a category.
#[derive(Debug)]
pub struct KbListArgs {
    pub category: String,
    /// The root directory, when given on the command line.
    pub kb_root: Option<String>,
}

/// Resolve a `kb://` reference.
#[derive(Debug)]
pub struct KbGetArgs {
    pub uri: String,
    pub kb_root: Option<String>,
}

/// The resolver for a command: rooted at `kb_root` when given, else at
/// `env_root` (the value of `DOCLI_KB_ROOT`); with neither, the dependency
/// is missing.
pub fn make_resolver(kb_root: &Option<String>, env_root: Option<&str>) -> (r: Result<KbResolver, DocliError>)
    ensures
        match kb_root {
            Some(p) => r matches Ok(k) && k.root() == p@,
            None => match env_root {
                Some(e) => r matches Ok(k) && k.root() == e@,
                None => r matches Err(x) && x.view_pair() == (
                    ErrorCode::DependencyMissing,
                    "DOCLI_KB_ROOT environment variable or --kb-root flag"@,
                ),
            },
        },
{
    match kb_root {
        Some(p) => Ok(KbResolver::new(p.as_str())),
        None => match env_root {
            Some(e) => Ok(KbResolver::new(e)),
            None => Err(
                DocliError::DependencyMissing {
                    dependency: String::from_str("DOCLI_KB_ROOT environment variable or --kb-root flag"),
                },
            ),
        },
    }
}

/// A reference and the file it resolves to.
#[derive(Debug)]
pub struct KbGetData {
    pub uri: String,
    pub path: String,
}

/// The root a command's resolver takes: the flag, else the environment.
pub open spec fn root_for(kb_root: Option<String>, env_root: Option<Seq<char>>) -> Option<Seq<char>> {
    match kb_root {
        Some(p) => Some(p@),
        None => env_root,
    }
}

/// Resolves `args.uri` under the root of `make_resolver`. Whether the file
/// is there is read from the file system.
pub fn execute_get(args: &KbGetArgs, env_root: Option<&str>) -> (r: Result<KbGetData, DocliError>)
    ensures
        match root_for(
            args.kb_root,
            match env_root {
                Some(e) => Some(e@),
                None => None,
            },
        ) {
            None => r matches Err(x) && x.view_pair() == (
                ErrorCode::DependencyMissing,
                "DOCLI_KB_ROOT environment variable or --kb-root flag"@,
            ),
            Some(root) => match kb_path(root, args.uri@) {
                None => r matches Err(x) && x.view_pair() == (ErrorCode::RefNotFound, args.uri@),
                Some(p) => (r matches Ok(d) && d.uri@ == args.uri@ && d.path@ == p) || (r matches Err(x)
                    && x.view_pair() == (ErrorCode::RefNotFound, args.uri@)),
            },
        },
{
    let resolver = make_resolver(&args.kb_root, env_root)?;
    let path = resolver.resolve(args.uri.as_str())?;
    Ok(KbGetData { uri: args.uri.clone(), path })
}

} // verus!
