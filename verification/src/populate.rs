//! Which of the matched paths are populated, and where their backups are.
//!
//! The backup of an output file stands beside it, under the file's path
//! with `.bak` added. A path that itself ends in `.bak` is a backup and no
//! output file: it is not read, backed up or rewritten.

use vstd::prelude::*;
use vstd::string::StringExecFns;
use crate::text::{ends_with, ends_with_chars, to_chars};

verus! {

/// What is added to the path of an output file to give the path of its
/// backup.
pub open spec fn backup_suffix() -> Seq<char> {
    ".bak"@
}

/// `path` is the path of a backup.
pub open spec fn is_backup(path: Seq<char>) -> bool {
    ends_with(path, backup_suffix())
}

/// The path of the backup of the file at `path`.
pub open spec fn backup_of(path: Seq<char>) -> Seq<char> {
    path + backup_suffix()
}

/// What a run does with one matched path.
#[derive(Clone, Debug, PartialEq, Eq)]
pub enum PathPlan {
    /// The path is left alone.
    Skip,
    /// The file at the path is populated; `backup` is the path of its
    /// backup.
    Populate { backup: String },
}

/// Decides whether `path` is the path of a backup.
pub fn is_backup_path(path: &str) -> (r: bool)
    ensures
        r == is_backup(path@),
{
    let text = to_chars(path);
    let suffix = to_chars(".bak");
    ends_with_chars(&text, &suffix)
}

/// The path of the backup of the file at `path`.
pub fn backup_path(path: &str) -> (r: String)
    ensures
        r@ == backup_of(path@),
{
    let mut out = String::from_str(path);
    out.append(".bak");
    out
}

/// Decides what a run does with the matched path `path`: a backup is
/// skipped, any other file is populated.
pub fn plan_path(path: &str) -> (r: PathPlan)
    ensures
        match r {
            PathPlan::Skip => is_backup(path@),
            PathPlan::Populate { backup } => !is_backup(path@) && backup@ == backup_of(path@),
        },
{
    if is_backup_path(path) {
        PathPlan::Skip
    } else {
        PathPlan::Populate { backup: backup_path(path) }
    }
}

/// Backups are never processed themselves: the backup of any file is a path
/// that is skipped, so no run makes a backup of a backup.
pub proof fn lemma_backup_is_skipped(path: Seq<char>)
    ensures
        is_backup(backup_of(path)),
{
    let whole = backup_of(path);
    let suffix = backup_suffix();
    assert(whole.subrange(whole.len() - suffix.len(), whole.len() as int) =~= suffix);
}

} // verus!
