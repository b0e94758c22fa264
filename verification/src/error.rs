//! The ways in which compiling one document can fail.

use vstd::prelude::*;
use vstd::string::StringExecFns;

verus! {

/// Why a document could not be compiled. Each failure concerns one document
/// only; the documents beside it still compile.
#[derive(Debug, Clone, Copy, PartialEq, Eq, Structural)]
pub enum CompileError {
    /// The text ended right after a `#`, or inside a tag that no `]` closes.
    UnexpectedEof,
    /// A segment of a tag's arguments holds more than one `:`.
    MalformedTag,
    /// The `timestamp` attribute of a title is no unsigned integer.
    InvalidTimestamp,
    /// No title carries a timestamp and the file's creation time is unknown.
    MissingTimestamp,
    /// The source file could not be read.
    UnreadableFile,
}

impl CompileError {
    /// A sentence that describes the failure.
    pub fn message(&self) -> (text: String)
        ensures
            text@ == match *self {
                CompileError::UnexpectedEof => "unexpected end of input inside a tag"@,
                CompileError::MalformedTag => "too many ':'s in tag component"@,
                CompileError::InvalidTimestamp => "the timestamp of the title is not an unsigned integer"@,
                CompileError::MissingTimestamp => "couldn't figure out a good timestamp for this post"@,
                CompileError::UnreadableFile => "something went wrong reading the file"@,
            },
    {
        match self {
            CompileError::UnexpectedEof => String::from_str("unexpected end of input inside a tag"),
            CompileError::MalformedTag => String::from_str("too many ':'s in tag component"),
            CompileError::InvalidTimestamp => String::from_str(
                "the timestamp of the title is not an unsigned integer",
            ),
            CompileError::MissingTimestamp => String::from_str(
                "couldn't figure out a good timestamp for this post",
            ),
            CompileError::UnreadableFile => String::from_str("something went wrong reading the file"),
        }
    }
}

} // verus!
