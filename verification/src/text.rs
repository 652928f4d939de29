//! ASCII bytes as text.
//!
//! Symbols are computed as bytes and handed out as a `String`. For ASCII
//! bytes the two agree byte for byte; this module states that and makes the
//! conversion.

use std::string::FromUtf8Error;
use vstd::pervasive::unreached;
use vstd::prelude::*;
use vstd::utf8::{
    decode_utf8, encode_utf8, encode_utf8_decode_utf8, encode_utf8_valid_utf8, is_ascii_chars,
    is_ascii_chars_encode_utf8, valid_utf8,
};

verus! {

/// The text that ASCII bytes spell: one character per byte.
pub open spec fn as_text(bytes: Seq<u8>) -> Seq<char> {
    Seq::new(bytes.len(), |i: int| bytes[i] as char)
}

/// Whether every byte is ASCII.
pub(crate) open spec fn is_ascii_bytes(bytes: Seq<u8>) -> bool {
    forall|i: int| 0 <= i < bytes.len() ==> #[trigger] bytes[i] < 128
}

/// ASCII bytes are valid UTF-8, and they are the UTF-8 form of the text they
/// spell and of no other text.
proof fn lemma_ascii_text(bytes: Seq<u8>)
    requires
        is_ascii_bytes(bytes),
    ensures
        is_ascii_chars(as_text(bytes)),
        valid_utf8(bytes),
        encode_utf8(as_text(bytes)) == bytes,
        decode_utf8(bytes) == as_text(bytes),
{
    let text = as_text(bytes);
    is_ascii_chars_encode_utf8(text);
    assert(encode_utf8(text) =~= bytes);
    encode_utf8_valid_utf8(text);
    encode_utf8_decode_utf8(text);
}

/// `std::string::FromUtf8Error`, the error of `String::from_utf8`. It is
/// only passed along; nothing is read from it.
#[verifier::external_type_specification]
#[verifier::external_body]
pub struct ExFromUtf8Error(FromUtf8Error);

/// `String::from_utf8` returns `Ok` exactly when the bytes are valid UTF-8,
/// and the string it then returns is made of the bytes it was given.
pub assume_specification[ String::from_utf8 ](vec: Vec<u8>) -> (r: Result<String, FromUtf8Error>)
    ensures
        r is Ok <==> valid_utf8(vec@),
        r matches Ok(s) ==> encode_utf8(s@) == vec@,
;

/// The string that ASCII bytes spell.
pub(crate) fn ascii_string(bytes: Vec<u8>) -> (s: String)
    requires
        is_ascii_bytes(bytes@),
    ensures
        s@ == as_text(bytes@),
        encode_utf8(s@) == bytes@,
        is_ascii_chars(s@),
{
    proof {
        lemma_ascii_text(bytes@);
    }
    match String::from_utf8(bytes) {
        Ok(s) => {
            proof {
                encode_utf8_decode_utf8(s@);
            }
            s
        },
        Err(_) => unreached(),
    }
}

} // verus!
