//! The arguments of a run, and the checks made on them before any file is
//! changed.

use vstd::prelude::*;
use vstd::string::StringExecFns;
use crate::failure::Failure;

verus! {

/// The arguments of a run.
#[derive(Clone, Debug, PartialEq, Eq)]
pub struct Cli {
    /// The path of the env file to load. A missing file counts as empty.
    pub env: String,
    /// The path of the example file; its keys are the variables that may be
    /// populated.
    pub example: String,
    /// The glob patterns of the output files, which are populated in place.
    pub output: Vec<String>,
    /// Whether backups are neither made nor restored from.
    pub disposable: bool,
}

/// What expanding one output pattern gave.
#[derive(Clone, Copy, Debug, PartialEq, Eq)]
pub enum Expansion {
    /// The pattern is no valid glob pattern.
    Invalid,
    /// The pattern is valid and gave this many entries.
    Matched(usize),
}

/// The path of the env file where none is given.
pub open spec fn default_env() -> Seq<char> {
    ".env"@
}

/// The output patterns where none is given: the directories into which the
/// common build tools write.
pub open spec fn default_output() -> Seq<Seq<char>> {
    seq!["dist/**/*"@, ".next/**/*"@, ".nuxt/**/*"@, ".output/**/*"@, "build/**/*"@]
}

/// Some pattern in `expansions` is invalid.
pub open spec fn any_invalid(expansions: Seq<Expansion>) -> bool {
    exists|i: int| 0 <= i < expansions.len() && expansions[i] is Invalid
}

/// Some pattern in `expansions` gave an entry.
pub open spec fn any_matched(expansions: Seq<Expansion>) -> bool {
    exists|i: int|
        0 <= i < expansions.len() && (#[trigger] expansions[i] matches Expansion::Matched(n) && n
            > 0)
}

/// `r` is what the check of the example file gives: success where the file
/// can be read, else the failure that names its path.
pub open spec fn example_checked(args: Cli, readable: bool, r: Result<(), Failure>) -> bool {
    if readable {
        r is Ok
    } else {
        r matches Err(Failure::ExampleUnreadable { path }) && path@ == args.example@
    }
}

/// `r` is what the check of the output patterns gives: the failure of an
/// invalid pattern where there is one; else, where nothing was matched, the
/// failure that lists the patterns; else success.
pub open spec fn output_checked(args: Cli, expansions: Seq<Expansion>, r: Result<(), Failure>)
    -> bool {
    if any_invalid(expansions) {
        r == Err::<(), Failure>(Failure::InvalidPattern)
    } else if !any_matched(expansions) {
        r matches Err(Failure::NoOutputFile { patterns }) && patterns.deep_view()
            == args.output.deep_view()
    } else {
        r is Ok
    }
}

impl Cli {
    /// The arguments of a run for which only the example file is given.
    pub fn new(example: String) -> (r: Cli)
        ensures
            r.env@ == default_env(),
            r.example == example,
            r.output.deep_view() == default_output(),
            !r.disposable,
    {
        let mut output: Vec<String> = Vec::new();
        output.push(String::from_str("dist/**/*"));
        output.push(String::from_str(".next/**/*"));
        output.push(String::from_str(".nuxt/**/*"));
        output.push(String::from_str(".output/**/*"));
        output.push(String::from_str("build/**/*"));
        assert(output.deep_view() =~= default_output());
        Cli { env: String::from_str(".env"), example, output, disposable: false }
    }
}

/// Checks that the example file can be read; `readable` says whether it
/// can. Where it cannot, the failure names its path.
pub fn assert_example_arg(args: &Cli, readable: bool) -> (r: Result<(), Failure>)
    ensures
        example_checked(*args, readable, r),
{
    if readable {
        Ok(())
    } else {
        Err(Failure::ExampleUnreadable { path: args.example.clone() })
    }
}

/// Checks that the output patterns are valid and match at least one file;
/// `expansions` says, pattern by pattern, what expanding them gave. An
/// invalid pattern comes before the lack of a match.
pub fn assert_output_arg(args: &Cli, expansions: &Vec<Expansion>) -> (r: Result<(), Failure>)
    ensures
        output_checked(*args, expansions@, r),
{
    let mut matched = false;
    let mut i: usize = 0;
    while i < expansions.len()
        invariant
            i <= expansions.len(),
            !any_invalid(expansions@.take(i as int)),
            matched == any_matched(expansions@.take(i as int)),
        decreases expansions.len() - i,
    {
        let ghost before = expansions@.take(i as int);
        let ghost after = expansions@.take(i + 1);
        match expansions[i] {
            Expansion::Invalid => {
                assert(expansions@[i as int] is Invalid);
                return Err(Failure::InvalidPattern);
            },
            Expansion::Matched(n) => {
                proof {
                    assert forall|k: int| 0 <= k < after.len() implies !(after[k] is Invalid) by {
                        if k < i {
                            assert(before[k] == after[k]);
                        }
                    }
                    if any_matched(before) {
                        let k = choose|k: int|
                            0 <= k < before.len() && (#[trigger] before[k] matches Expansion::Matched(
                                n,
                            ) && n > 0);
                        assert(after[k] == before[k]);
                    }
                    if n > 0 {
                        assert(after[i as int] == expansions@[i as int]);
                    }
                    if any_matched(after) && n == 0 {
                        let k = choose|k: int|
                            0 <= k < after.len() && (#[trigger] after[k] matches Expansion::Matched(
                                n,
                            ) && n > 0);
                        assert(before[k] == after[k]);
                    }
                }
                if n > 0 {
                    matched = true;
                }
            },
        }
        i += 1;
    }
    assert(expansions@.take(expansions.len() as int) =~= expansions@);
    if matched {
        Ok(())
    } else {
        Err(Failure::NoOutputFile { patterns: args.output.clone() })
    }
}

/// Checks the arguments of a run, the example file first: see
/// [`assert_example_arg`] and [`assert_output_arg`].
pub fn assert_cli_arg(args: &Cli, example_readable: bool, expansions: &Vec<Expansion>) -> (r:
    Result<(), Failure>)
    ensures
        if example_readable {
            output_checked(*args, expansions@, r)
        } else {
            example_checked(*args, example_readable, r)
        },
{
    match assert_example_arg(args, example_readable) {
        Ok(_) => assert_output_arg(args, expansions),
        Err(failure) => Err(failure),
    }
}

} // verus!
