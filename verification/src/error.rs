//! What can go wrong while a VDF file is read.

use vstd::prelude::*;

verus! {

/// The ways in which reading a VDF file can fail.
#[derive(Clone, Copy, Debug, PartialEq, Eq, Structural)]
pub enum VdfError {
    /// The buffer ended in the middle of a value.
    TruncatedInput,
    /// The file does not start with the magic number of a known version.
    MalformedHeader,
    /// A tag byte that stands for no kind of value.
    UnknownTypeTag,
    /// A key that the structure of the file calls for is absent.
    MissingKey,
    /// A key that occurs twice among the fields of one object.
    DuplicateKey,
    /// Bytes that are not text: a string that is not UTF-8, or a text file
    /// that does not follow the grammar.
    MalformedText,
}

impl VdfError {
    /// A sentence that describes the error.
    pub open spec fn message_text(self) -> Seq<char> {
        match self {
            VdfError::TruncatedInput => "the input ended in the middle of a value"@,
            VdfError::MalformedHeader => "the header does not name a known version"@,
            VdfError::UnknownTypeTag => "a tag byte stands for no kind of value"@,
            VdfError::MissingKey => "a key that the file's structure calls for is absent"@,
            VdfError::DuplicateKey => "a key occurs twice in one object"@,
            VdfError::MalformedText => "the input is not well-formed text"@,
        }
    }

    /// A sentence that describes the error.
    pub fn message(&self) -> (message: &'static str)
        ensures
            message@ == self.message_text(),
    {
        match self {
            VdfError::TruncatedInput => "the input ended in the middle of a value",
            VdfError::MalformedHeader => "the header does not name a known version",
            VdfError::UnknownTypeTag => "a tag byte stands for no kind of value",
            VdfError::MissingKey => "a key that the file's structure calls for is absent",
            VdfError::DuplicateKey => "a key occurs twice in one object",
            VdfError::MalformedText => "the input is not well-formed text",
        }
    }
}

} // verus!
