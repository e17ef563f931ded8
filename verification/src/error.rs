//! What can go wrong when an entry is recorded.

use vstd::prelude::*;

verus! {

/// The reasons for which recording an entry fails. Each carries the name that
/// its message reports: a directory, a file path or a section heading.
#[derive(Debug)]
pub enum TweetError {
    /// The target directory does not exist.
    DirectoryNotFound(String),
    /// The note of the day does not exist; it is never created here.
    FileNotFound(String),
    /// The note could not be read as text.
    ReadError(String),
    /// No line of the note is the target section heading.
    SectionNotFound(String),
    /// The note could not be written back.
    WriteError(String),
}

impl TweetError {
    /// The text of the message for this error.
    pub open spec fn message_of(self) -> Seq<char> {
        match self {
            TweetError::DirectoryNotFound(dir) => "Target directory does not exist: "@ + dir@,
            TweetError::FileNotFound(path) => "Target file does not exist: "@ + path@,
            TweetError::ReadError(path) => "Failed to read file: "@ + path@,
            TweetError::SectionNotFound(section) => "Target section '"@ + section@
                + "' not found"@,
            TweetError::WriteError(path) => "Failed to write file: "@ + path@,
        }
    }

    /// The message to show for this error.
    pub fn message(&self) -> (m: String)
        ensures
            m@ == self.message_of(),
    {
        match self {
            TweetError::DirectoryNotFound(dir) => {
                String::from_str("Target directory does not exist: ").concat(dir.as_str())
            },
            TweetError::FileNotFound(path) => {
                String::from_str("Target file does not exist: ").concat(path.as_str())
            },
            TweetError::ReadError(path) => {
                String::from_str("Failed to read file: ").concat(path.as_str())
            },
            TweetError::SectionNotFound(section) => {
                String::from_str("Target section '").concat(section.as_str()).concat(
                    "' not found",
                )
            },
            TweetError::WriteError(path) => {
                String::from_str("Failed to write file: ").concat(path.as_str())
            },
        }
    }
}

} // verus!
