//! The backup of an output file, and what one run does to the pair.
//!
//! Beside an output file stands its backup. The backup holds the file as it
//! was built, with the placeholder still in it, so that a later run starts
//! from the same text whatever earlier runs wrote. A run on one file has
//! three steps. Restore: a backup that holds a placeholder replaces the
//! output file. Back up: contents that hold a placeholder are written to the
//! backup. Populate: the contents are rewritten and written to the output
//! file. A disposable run leaves out the first two.
//!
//! A file is described here by its text, or by `None` where there is no file
//! or it cannot be read.

use vstd::prelude::*;
use crate::failure::Failure;
use crate::rewrite::{
    has_placeholder, has_placeholder_chars, lemma_rewrite_without_placeholder, rewrite_chars,
    rewrite_text,
};
use crate::text::{from_chars, to_chars};

verus! {

/// The text of a file that was read, as a sequence of characters.
pub open spec fn text_of(file: Option<&str>) -> Option<Seq<char>> {
    match file {
        Some(s) => Some(s@),
        None => None,
    }
}

/// Whether the restore step replaces the output file by its backup.
pub open spec fn restores(disposable: bool, backup: Option<Seq<char>>) -> bool {
    &&& !disposable
    &&& backup matches Some(b)
    &&& has_placeholder(b)
}

/// The contents of the output file once the restore step is over.
pub open spec fn contents_read(
    disposable: bool,
    output: Option<Seq<char>>,
    backup: Option<Seq<char>>,
) -> Option<Seq<char>> {
    if restores(disposable, backup) {
        backup
    } else {
        output
    }
}

/// Whether the backup step writes `contents` to the backup.
pub open spec fn backs_up(disposable: bool, contents: Seq<char>) -> bool {
    !disposable && has_placeholder(contents)
}

/// The backup after a run.
pub open spec fn backup_after(
    disposable: bool,
    output: Option<Seq<char>>,
    backup: Option<Seq<char>>,
) -> Option<Seq<char>> {
    match contents_read(disposable, output, backup) {
        Some(contents) => if backs_up(disposable, contents) {
            Some(contents)
        } else {
            backup
        },
        None => backup,
    }
}

/// The output file after a run. Where there is nothing to read, the run
/// fails and there is still nothing.
pub open spec fn output_after(
    disposable: bool,
    output: Option<Seq<char>>,
    backup: Option<Seq<char>>,
    value: Seq<char>,
) -> Option<Seq<char>> {
    match contents_read(disposable, output, backup) {
        Some(contents) => Some(rewrite_text(contents, value)),
        None => None,
    }
}

/// A backup is pristine when it holds a placeholder, and also when there is
/// none.
pub open spec fn pristine(backup: Option<Seq<char>>) -> bool {
    backup matches Some(b) ==> has_placeholder(b)
}

/// What a run writes for one output file. The caller carries it out in the
/// order of the fields.
#[derive(Clone, Debug, PartialEq, Eq)]
pub struct FileUpdate {
    /// Whether the backup is first copied over the output file.
    pub restore: bool,
    /// The text to write to the backup, where one is to be written.
    pub backup: Option<String>,
    /// The text to write to the output file.
    pub output: String,
}

/// One run on one output file. `output` and `backup` are the texts of the
/// two files as they are found, `serialized` is the value that takes the
/// place of the placeholder. The run fails if, with the restore step over,
/// there is no output file to read. Once the update is carried out, the two
/// files hold what [`output_after`] and [`backup_after`] say.
pub fn populate_file(
    disposable: bool,
    output: Option<&str>,
    backup: Option<&str>,
    serialized: &str,
) -> (r: Result<FileUpdate, Failure>)
    ensures
        match contents_read(disposable, text_of(output), text_of(backup)) {
            Some(contents) => {
                &&& r matches Ok(update)
                &&& update.restore == restores(disposable, text_of(backup))
                &&& match update.backup {
                    Some(b) => backs_up(disposable, contents) && b@ == contents,
                    None => !backs_up(disposable, contents),
                }
                &&& update.output@ == rewrite_text(contents, serialized@)
            },
            None => r == Err::<FileUpdate, Failure>(Failure::UnreadableOutput),
        },
        r matches Ok(update) ==> Some(update.output@) == output_after(
            disposable,
            text_of(output),
            text_of(backup),
            serialized@,
        ),
        r matches Ok(update) ==> (match update.backup {
            Some(b) => Some(b@),
            None => text_of(backup),
        }) == backup_after(disposable, text_of(output), text_of(backup)),
{
    let mut restore = false;
    let mut contents: Option<Vec<char>> = match output {
        Some(s) => Some(to_chars(s)),
        None => None,
    };
    if !disposable {
        if let Some(b) = backup {
            let saved = to_chars(b);
            if has_placeholder_chars(&saved) {
                restore = true;
                contents = Some(saved);
            }
        }
    }
    match contents {
        Some(text) => {
            let keep = if !disposable && has_placeholder_chars(&text) {
                Some(from_chars(&text))
            } else {
                None
            };
            let value = to_chars(serialized);
            let populated = rewrite_chars(&text, &value);
            Ok(FileUpdate { restore, backup: keep, output: from_chars(&populated) })
        },
        None => Err(Failure::UnreadableOutput),
    }
}

/// Population starts from the backup, so it shows the current environment
/// only: a run with the value `second` on what a run with the value `first`
/// left gives the output file that a run with `second` alone would have
/// given, and leaves the backup as the first run left it.
pub proof fn lemma_repopulate(
    output: Option<Seq<char>>,
    backup: Option<Seq<char>>,
    first: Seq<char>,
    second: Seq<char>,
)
    ensures
        ({
            let output1 = output_after(false, output, backup, first);
            let backup1 = backup_after(false, output, backup);
            &&& output_after(false, output1, backup1, second) == output_after(
                false,
                output,
                backup,
                second,
            )
            &&& backup_after(false, output1, backup1) == backup1
        }),
{
    if let Some(contents) = contents_read(false, output, backup) {
        if !has_placeholder(contents) {
            lemma_rewrite_without_placeholder(contents, first);
        }
    }
}

/// Running twice changes nothing: a second run with the same value leaves
/// the output file and the backup as the first run left them.
pub proof fn lemma_populate_is_idempotent(
    output: Option<Seq<char>>,
    backup: Option<Seq<char>>,
    value: Seq<char>,
)
    ensures
        ({
            let output1 = output_after(false, output, backup, value);
            let backup1 = backup_after(false, output, backup);
            &&& output_after(false, output1, backup1, value) == output1
            &&& backup_after(false, output1, backup1) == backup1
        }),
{
    lemma_repopulate(output, backup, value, value);
}

/// The backup is the file as it was built: an output file that holds a
/// placeholder, and that no backup replaces, is after the run the text of
/// its backup.
pub proof fn lemma_backup_keeps_template(template: Seq<char>, backup: Option<Seq<char>>)
    requires
        has_placeholder(template),
        !restores(false, backup),
    ensures
        backup_after(false, Some(template), backup) == Some(template),
{
}

/// A backup that holds a placeholder is never written over: no run changes
/// it, whatever the output file holds.
pub proof fn lemma_backup_is_kept(
    disposable: bool,
    output: Option<Seq<char>>,
    template: Seq<char>,
)
    requires
        has_placeholder(template),
    ensures
        backup_after(disposable, output, Some(template)) == Some(template),
{
}

/// No run makes a pristine backup into one that is not.
pub proof fn lemma_backup_stays_pristine(
    disposable: bool,
    output: Option<Seq<char>>,
    backup: Option<Seq<char>>,
)
    requires
        pristine(backup),
    ensures
        pristine(backup_after(disposable, output, backup)),
{
}

/// A file without a placeholder, with no backup to restore from, is left as
/// it is, and so is its backup: where there was none, none is made.
pub proof fn lemma_without_placeholder_untouched(
    contents: Seq<char>,
    backup: Option<Seq<char>>,
    value: Seq<char>,
)
    requires
        !has_placeholder(contents),
        !restores(false, backup),
    ensures
        output_after(false, Some(contents), backup, value) == Some(contents),
        backup_after(false, Some(contents), backup) == backup,
{
    lemma_rewrite_without_placeholder(contents, value);
}

/// A disposable run neither reads nor writes the backup: the output file is
/// populated from its own contents, and the backup stays as it is.
pub proof fn lemma_disposable_ignores_backup(
    output: Option<Seq<char>>,
    backup: Option<Seq<char>>,
    value: Seq<char>,
)
    ensures
        !restores(true, backup),
        output_after(true, output, backup, value) == output_after(true, output, None, value),
        output matches Some(contents) ==> output_after(true, output, backup, value) == Some(
            rewrite_text(contents, value),
        ),
        backup_after(true, output, backup) == backup,
{
}

} // verus!
