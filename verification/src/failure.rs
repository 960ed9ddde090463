//! The ways in which a run can fail, each with the message that is shown
//! for it.

use vstd::prelude::*;
use vstd::string::StringExecFns;
use crate::text::{join, join_strings};

verus! {

/// A reason for which a run stops.
#[derive(Clone, Debug, PartialEq, Eq)]
pub enum Failure {
    /// The example file at `path` cannot be read.
    ExampleUnreadable { path: String },
    /// One of the output patterns is no valid glob pattern.
    InvalidPattern,
    /// The output patterns match no file at all.
    NoOutputFile { patterns: Vec<String> },
    /// The resolved environment cannot be serialized.
    Serialization,
    /// An output file that a pattern matched cannot be read.
    UnreadableOutput,
}

impl Failure {
    /// The message of this failure.
    pub open spec fn message_text(self) -> Seq<char> {
        match self {
            Failure::ExampleUnreadable { path } => "Failed to load example file: "@ + path@,
            Failure::InvalidPattern => "Failed to read glob pattern"@,
            Failure::NoOutputFile { patterns } => "Output file not found: "@ + join(
                patterns.deep_view(),
                ", "@,
            ),
            Failure::Serialization => "Failed to serialize public env"@,
            Failure::UnreadableOutput => "Failed to read output file"@,
        }
    }

    /// The message of this failure, as it is written to the error stream.
    pub fn message(&self) -> (r: String)
        ensures
            r@ == self.message_text(),
    {
        match self {
            Failure::ExampleUnreadable { path } => {
                let mut out = String::from_str("Failed to load example file: ");
                out.append(path.as_str());
                out
            },
            Failure::InvalidPattern => String::from_str("Failed to read glob pattern"),
            Failure::NoOutputFile { patterns } => {
                let mut out = String::from_str("Output file not found: ");
                let joined = join_strings(patterns, ", ");
                out.append(joined.as_str());
                out
            },
            Failure::Serialization => String::from_str("Failed to serialize public env"),
            Failure::UnreadableOutput => String::from_str("Failed to read output file"),
        }
    }
}

} // verus!
