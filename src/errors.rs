//! The errors that the library reports.
use vstd::prelude::*;

verus! {

/// What can go wrong while reading primers or records.
#[derive(Clone, Copy, Debug, PartialEq, Eq, Structural)]
pub enum AppError {
    /// The input file does not exist.
    FileDoesNotExistError,
    /// The input file's name has no FASTA or FASTQ extension.
    InvalidExtensionError,
    /// A record identifier is not valid UTF-8.
    InvalidUtf8Error,
    /// A primer line does not have five or six tab-separated fields.
    PrimerLineFormatError,
    /// A numeric field of a primer line is not an unsigned integer.
    PrimerLenParsingError,
    /// A primer line describes a pair that breaks the primer invariant.
    InvalidPrimerError,
    /// The primer table holds no usable primer pair.
    NoPrimersFoundError,
    /// A requested range is empty or reversed.
    InvalidRangeError,
    /// A search pattern is not a valid regular expression.
    InvalidRegexPattern,
}

} // verus!
