//! Bytes as text.
use vstd::prelude::*;
use vstd::utf8::{decode_utf8, valid_utf8};

verus! {

/// The text of the error of `std::str::from_utf8` on bytes that are not UTF-8.
pub uninterp spec fn utf8_error(bytes: Seq<u8>) -> Seq<char>;

/// What reading bytes as UTF-8 gives: a text, or `err`.
pub open spec fn text_or(bytes: Seq<u8>, err: Seq<char>) -> Result<Seq<char>, Seq<char>> {
    if valid_utf8(bytes) {
        Ok(decode_utf8(bytes))
    } else {
        Err(err)
    }
}

/// What reading bytes as UTF-8 gives: a text, or the text of an error.
pub open spec fn utf8_text(bytes: Seq<u8>) -> Result<Seq<char>, Seq<char>> {
    text_or(bytes, utf8_error(bytes))
}

/// The texts behind the outcome of a reading.
pub open spec fn text_result(out: Result<String, String>) -> Result<Seq<char>, Seq<char>> {
    match out {
        Ok(text) => Ok(text@),
        Err(err) => Err(err@),
    }
}

/// `std::str::from_utf8` reads bytes that are UTF-8 as the text that they
/// encode, and refuses any others with an error that depends on them alone.
#[verifier::external_body]
pub(crate) fn read_utf8(bytes: &[u8]) -> (out: Result<String, String>)
    ensures
        text_result(out) == text_or(bytes@, utf8_error(bytes@)),
{
    match std::str::from_utf8(bytes) {
        Ok(text) => Ok(text.to_owned()),
        Err(err) => Err(err.to_string()),
    }
}

/// What `String::from_utf8_lossy` makes of bytes.
pub uninterp spec fn lossy_text(bytes: Seq<u8>) -> Seq<char>;

/// `String::from_utf8_lossy` reads bytes that are UTF-8 as the text that they
/// encode; any others it reads with replacements that depend on the bytes
/// alone.
#[verifier::external_body]
pub(crate) fn read_lossy(bytes: &[u8]) -> (out: String)
    ensures
        out@ == lossy_text(bytes@),
        valid_utf8(bytes@) ==> out@ == decode_utf8(bytes@),
{
    String::from_utf8_lossy(bytes).into_owned()
}

} // verus!
