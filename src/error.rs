use vstd::prelude::*;

verus! {

/// The ways a packaging run can fail. Every stage surfaces the first one it meets.
#[derive(Clone, Debug, PartialEq, Eq)]
pub enum PackError {
    /// A required input is missing or malformed.
    Configuration,
    /// The source path does not name a directory.
    InvalidInput,
    /// A filesystem read, write, create or remove failed.
    Io,
    /// The catalog converter exited with a failure; carries its diagnostic text.
    ToolExecutionFailed(String),
    /// The catalog converter's output is not a JSON object.
    MalformedToolOutput,
    /// Writing the archive failed.
    ArchiveWrite,
    /// The system clock cannot give today's date.
    ClockUnavailable,
}

} // verus!
