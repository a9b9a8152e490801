//! From the bytes of a source file to its text and its sequences. Reading
//! the file is left to the caller.

use vstd::prelude::*;
use vstd::string::StringSliceAdditionalSpecFns;
use vstd::utf8::{decode_utf8, encode_utf8_decode_utf8, valid_utf8};
use crate::error::Error;
use crate::parse::{parse_str, parsed_source};
use crate::syntax::{Instruction, Sequence};

verus! {

/// `std::str::from_utf8`: the bytes as a string slice when they are valid
/// UTF-8, which then encodes to the same bytes; else the error that says
/// where they are not.
#[verifier::external_body]
fn decode(bytes: &[u8]) -> (result: Result<&str, std::str::Utf8Error>)
    ensures
        result is Ok == valid_utf8(bytes@),
        result matches Ok(text) ==> text.spec_bytes() == bytes@,
{
    std::str::from_utf8(bytes)
}

/// The text of a source file with these bytes, which must be valid UTF-8.
pub fn load_file_text(bytes: &[u8]) -> (result: Result<String, Error>)
    ensures
        valid_utf8(bytes@) ==> (result matches Ok(text) && text@ == decode_utf8(bytes@)),
        !valid_utf8(bytes@) ==> result matches Err(Error::IncompatibleEncoding(_)),
{
    match decode(bytes) {
        Err(error) => Err(Error::IncompatibleEncoding(error)),
        Ok(text) => {
            proof {
                encode_utf8_decode_utf8(text@);
            }
            Ok(text.to_owned())
        },
    }
}

/// The sequences of a source file with these bytes: those of its text, if
/// the bytes are valid UTF-8.
pub fn parse_file(bytes: &[u8]) -> (result: Result<Vec<Sequence>, Error>)
    ensures
        !valid_utf8(bytes@) ==> result matches Err(Error::IncompatibleEncoding(_)),
        valid_utf8(bytes@) ==> {
            &&& result matches Ok(sequences) ==> parsed_source(decode_utf8(bytes@)) == Ok::<
                Seq<Seq<Seq<Instruction>>>,
                Error,
            >(sequences.deep_view())
            &&& result matches Err(error) ==> parsed_source(decode_utf8(bytes@)) == Err::<
                Seq<Seq<Seq<Instruction>>>,
                Error,
            >(error)
        },
{
    let source = match load_file_text(bytes) {
        Ok(source) => source,
        Err(error) => {
            return Err(error);
        },
    };
    parse_str(source.as_str())
}

} // verus!
