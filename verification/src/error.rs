//! What can go wrong before a program runs.

use vstd::prelude::*;

verus! {

/// The error of an input or output operation. Nothing is known of its
/// contents here; it is carried through to the caller.
#[verifier::external_type_specification]
#[verifier::external_body]
pub struct ExIoError(std::io::Error);

/// The error of a failed UTF-8 decoding. Nothing is known of its contents
/// here; it is carried through to the caller.
#[verifier::external_type_specification]
#[verifier::external_body]
pub struct ExUtf8Error(std::str::Utf8Error);

/// Why a source could not be turned into sequences.
#[derive(Debug)]
pub enum Error {
    /// The source could not be read.
    IoError(std::io::Error),
    /// The source is not valid UTF-8.
    IncompatibleEncoding(std::str::Utf8Error),
    /// This character of the source is neither a command nor a blank.
    InvalidCommand(char),
    /// The line with this number ends in a skip that has nothing to skip.
    TrailingSkip(usize),
}

} // verus!
