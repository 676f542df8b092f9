use vstd::prelude::*;

verus! {

/// What can go wrong while decoding the library's formats or updating refs.
#[derive(Clone, Copy, Debug, PartialEq, Eq, Structural)]
pub enum Error {
    /// The input ended before a field could be read.
    UnexpectedEndOfFile,
    /// A hexadecimal object id held a character that is not a hex digit.
    InvalidHexByte,
    /// The checksum at the end of an index file does not match its content.
    ChecksumMismatch,
    /// An index file does not start with `DIRC`.
    InvalidSignature,
    /// An index file has a version other than 2 or 3.
    UnsupportedVersion,
    /// A ref transaction already holds an operation on this ref name.
    DuplicateRefName,
    /// `create` was asked to set a ref to the null object id.
    CreateWithNullObjectId,
    /// `delete` was asked to check a ref against the null object id.
    DeleteWithNullObjectId,
}

/// The message of an error.
pub open spec fn error_message(e: Error) -> Seq<char> {
    match e {
        Error::UnexpectedEndOfFile => "unexpected end of file"@,
        Error::InvalidHexByte => "invalid hex byte"@,
        Error::ChecksumMismatch => "checksum mismatch"@,
        Error::InvalidSignature => "invalid signature"@,
        Error::UnsupportedVersion => "unsupported version"@,
        Error::DuplicateRefName => ""@,
        Error::CreateWithNullObjectId => "create called with new object id set to null"@,
        Error::DeleteWithNullObjectId => "delete called with old object id set to null"@,
    }
}

impl Error {
    /// The message of the error, as a user would read it.
    pub fn message(&self) -> (res: &'static str)
        ensures
            res@ == error_message(*self),
    {
        match self {
            Error::UnexpectedEndOfFile => "unexpected end of file",
            Error::InvalidHexByte => "invalid hex byte",
            Error::ChecksumMismatch => "checksum mismatch",
            Error::InvalidSignature => "invalid signature",
            Error::UnsupportedVersion => "unsupported version",
            Error::DuplicateRefName => "",
            Error::CreateWithNullObjectId => "create called with new object id set to null",
            Error::DeleteWithNullObjectId => "delete called with old object id set to null",
        }
    }
}

} // verus!
