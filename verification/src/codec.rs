//! Text forms of ciphertext and plaintext: base64 and UTF-8.
//!
//! Base64 is the work of the `base64` crate and UTF-8 validation that of the
//! standard library. Neither is verified here. Each call stands behind a small
//! function whose contract is taken on trust; what base64 text a byte sequence
//! has is named, not defined.

use crate::error::CryptoError;
use vstd::prelude::*;
use vstd::string::StringSliceAdditionalSpecFns;
use vstd::utf8::{decode_utf8, valid_utf8};

verus! {

/// The error with which the `base64` crate refuses a text.
#[verifier::external_type_specification]
#[verifier::external_body]
pub struct ExDecodeError(base64::DecodeError);

/// The error with which the standard library refuses bytes that are not UTF-8.
#[verifier::external_type_specification]
#[verifier::external_body]
pub struct ExFromUtf8Error(std::string::FromUtf8Error);

/// The longest input whose base64 text, four characters for every three bytes
/// begun, can still be counted.
pub const MAX_BASE64_INPUT: usize = usize::MAX / 4 * 3;

/// The most that can be added to the length of a base64 text while it is
/// decoded without leaving what can be counted.
pub const BASE64_LENGTH_MARGIN: usize = 7;

/// The text that the `base64` crate, in its standard configuration, encodes
/// `bytes` to.
pub uninterp spec fn base64_text(bytes: Seq<u8>) -> Seq<char>;

/// The bytes that the `base64` crate, in its standard configuration, decodes a
/// text to, the text being given by its own bytes; `None` where it refuses the
/// text.
pub uninterp spec fn base64_bytes(text: Seq<u8>) -> Option<Seq<u8>>;

/// Calls `base64::encode`.
///
/// Trusted: the result is the text named [`base64_text`] of the input. The
/// outside function does not return where the length of the text overflows, so
/// longer inputs are excluded.
#[verifier::external_body]
fn base64_encode(bytes: &[u8]) -> (text: String)
    requires
        bytes@.len() <= MAX_BASE64_INPUT,
    ensures
        text@ == base64_text(bytes@),
{
    base64::encode(bytes)
}

/// Calls `base64::decode`.
///
/// Trusted: the call succeeds exactly on the texts that [`base64_bytes`] gives
/// bytes for, and returns those bytes. The outside function does not return
/// where rounding the length of the text up overflows, so longer texts are
/// excluded.
#[verifier::external_body]
fn base64_decode(text: &[u8]) -> (bytes: Result<Vec<u8>, base64::DecodeError>)
    requires
        text@.len() + BASE64_LENGTH_MARGIN <= usize::MAX,
    ensures
        bytes matches Ok(decoded) ==> base64_bytes(text@) == Some(decoded@),
        bytes is Err ==> base64_bytes(text@) == None::<Seq<u8>>,
{
    base64::decode(text)
}

/// Calls `String::from_utf8`.
///
/// Trusted: the call succeeds exactly on valid UTF-8 and returns the characters
/// that the bytes encode.
#[verifier::external_body]
fn string_from_utf8(bytes: Vec<u8>) -> (text: Result<
    String,
    std::string::FromUtf8Error,
>)
    ensures
        text is Ok <==> valid_utf8(bytes@),
        text matches Ok(decoded) ==> decoded@ == decode_utf8(bytes@),
{
    String::from_utf8(bytes)
}

/// The bytes that a base64 text with the bytes `text` is decoded to; `None`
/// where it is refused, or too long to be decoded.
pub open spec fn decoded_base64(text: Seq<u8>) -> Option<Seq<u8>> {
    if text.len() + BASE64_LENGTH_MARGIN > usize::MAX {
        None
    } else {
        base64_bytes(text)
    }
}

/// The characters of a plaintext that is UTF-8; the failure where it is none.
pub open spec fn text_of(plaintext: Seq<u8>) -> Result<Seq<char>, CryptoError> {
    if valid_utf8(plaintext) {
        Ok(decode_utf8(plaintext))
    } else {
        Err(CryptoError::Utf8ValidationError)
    }
}

/// Encodes `bytes` as base64 text, unless they are too many for the text to be
/// counted.
pub fn encode_base64(bytes: &[u8]) -> (text: Option<String>)
    ensures
        text is Some <==> bytes@.len() <= MAX_BASE64_INPUT,
        text matches Some(t) ==> t@ == base64_text(bytes@),
{
    if bytes.len() <= MAX_BASE64_INPUT {
        Some(base64_encode(bytes))
    } else {
        None
    }
}

/// Decodes the base64 text `text`.
pub fn decode_base64(text: &str) -> (bytes: Result<Vec<u8>, CryptoError>)
    ensures
        match decoded_base64(text.spec_bytes()) {
            Some(decoded) => bytes matches Ok(b) && b@ == decoded,
            None => bytes matches Err(e) && e == CryptoError::Base64DecodeError,
        },
{
    let raw = text.as_bytes();
    if raw.len() > usize::MAX - BASE64_LENGTH_MARGIN {
        return Err(CryptoError::Base64DecodeError);
    }
    match base64_decode(raw) {
        Ok(decoded) => Ok(decoded),
        Err(_) => Err(CryptoError::Base64DecodeError),
    }
}

/// Turns a plaintext into a string, where it is UTF-8.
pub fn text_from_utf8(plaintext: Vec<u8>) -> (text: Result<String, CryptoError>)
    ensures
        match text_of(plaintext@) {
            Ok(chars) => text matches Ok(t) && t@ == chars,
            Err(e) => text matches Err(x) && x == e,
        },
{
    match string_from_utf8(plaintext) {
        Ok(text) => Ok(text),
        Err(_) => Err(CryptoError::Utf8ValidationError),
    }
}

} // verus!
