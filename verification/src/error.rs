//! The ways in which a cipher operation can fail.

use vstd::prelude::*;
use vstd::string::StringExecFns;

verus! {

/// The reason why an operation was refused or a stream was stopped.
///
/// No error is retried inside this crate: the first failure ends the operation.
#[derive(Clone, Copy, Debug, PartialEq, Eq, Structural)]
pub enum CryptoError {
    /// The key does not have a length that the cipher accepts.
    InvalidKeyLength,
    /// An initialization vector was given and is not one block long.
    InvalidIvLength,
    /// The ciphertext ended in the middle of a block.
    TruncatedCiphertext,
    /// The final block does not end in well-formed padding.
    InvalidPadding,
    /// The text handed in for decryption is not base64.
    Base64DecodeError,
    /// The decrypted bytes are not UTF-8.
    Utf8ValidationError,
    /// The byte source reported a failure.
    SourceReadError,
    /// The byte sink reported a failure.
    SinkWriteError,
    /// A pipeline was used after it had finished or failed, or was configured
    /// with a chunk size that is not a positive multiple of the block size.
    InvalidState,
}

impl CryptoError {
    /// The text shown to a user for each error.
    ///
    /// A truncated ciphertext and a ciphertext with bad padding share one text,
    /// so that the message does not tell an attacker which check failed.
    pub open spec fn message_text(self) -> Seq<char> {
        match self {
            CryptoError::InvalidKeyLength => "the key has the wrong length"@,
            CryptoError::InvalidIvLength => "the initialization vector has the wrong length"@,
            CryptoError::TruncatedCiphertext => "the ciphertext could not be decrypted"@,
            CryptoError::InvalidPadding => "the ciphertext could not be decrypted"@,
            CryptoError::Base64DecodeError => "the input is not valid base64"@,
            CryptoError::Utf8ValidationError => "the decrypted data is not valid UTF-8"@,
            CryptoError::SourceReadError => "reading from the source failed"@,
            CryptoError::SinkWriteError => "writing to the sink failed"@,
            CryptoError::InvalidState => "the pipeline cannot be used in this state"@,
        }
    }

    /// Returns the user-facing description of this error.
    pub fn message(&self) -> (text: String)
        ensures
            text@ == self.message_text(),
    {
        match self {
            CryptoError::InvalidKeyLength => String::from_str("the key has the wrong length"),
            CryptoError::InvalidIvLength => String::from_str(
                "the initialization vector has the wrong length",
            ),
            CryptoError::TruncatedCiphertext => String::from_str(
                "the ciphertext could not be decrypted",
            ),
            CryptoError::InvalidPadding => String::from_str(
                "the ciphertext could not be decrypted",
            ),
            CryptoError::Base64DecodeError => String::from_str("the input is not valid base64"),
            CryptoError::Utf8ValidationError => String::from_str(
                "the decrypted data is not valid UTF-8",
            ),
            CryptoError::SourceReadError => String::from_str("reading from the source failed"),
            CryptoError::SinkWriteError => String::from_str("writing to the sink failed"),
            CryptoError::InvalidState => String::from_str(
                "the pipeline cannot be used in this state",
            ),
        }
    }
}

} // verus!
