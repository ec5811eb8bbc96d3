//! The interface that callers use: bytes, strings and base64 text in, the same
//! out.

use crate::cipher::BlockCipher;
use crate::codec::{
    base64_text, decode_base64, decoded_base64, encode_base64, text_from_utf8, text_of,
    MAX_BASE64_INPUT,
};
use crate::error::CryptoError;
use crate::model::{decrypted, encrypted};
use crate::stream::{decrypt_stream, default_chunk_size, encrypt_stream};
use vstd::prelude::*;
use vstd::string::StringSliceAdditionalSpecFns;

verus! {

/// The bytes of an optional string.
pub open spec fn optional_bytes(text: Option<&str>) -> Option<Seq<u8>> {
    match text {
        Some(t) => Some(t.spec_bytes()),
        None => None,
    }
}

/// Encryption and decryption of whole values under one key.
///
/// An implementation provides the two conversions between bytes, and says what
/// they compute. The conversions to and from strings and base64 text are built
/// on those two.
pub trait CryptoTrait: Sized {
    /// Why `key` and `iv` are refused, or `None` where they are accepted.
    spec fn refusal(key: Seq<u8>, iv: Option<Seq<u8>>) -> Option<CryptoError>;

    /// Whether this value was set up with `key` and `iv`.
    spec fn set_up_with(&self, key: Seq<u8>, iv: Option<Seq<u8>>) -> bool;

    /// The ciphertext of `data`.
    spec fn ciphertext_of(&self, data: Seq<u8>) -> Seq<u8>;

    /// The plaintext of `data`, or the reason why it has none.
    spec fn plaintext_of(&self, data: Seq<u8>) -> Result<Seq<u8>, CryptoError>;

    /// Sets up encryption under `key`, with the initialization vector `iv` where
    /// one is given. The bytes of the strings are the key and the vector.
    fn new(key: &str, iv: Option<&str>) -> (crypto: Result<Self, CryptoError>)
        ensures
            match Self::refusal(key.spec_bytes(), optional_bytes(iv)) {
                Some(e) => crypto matches Err(x) && x == e,
                None => crypto matches Ok(c) && c.set_up_with(
                    key.spec_bytes(),
                    optional_bytes(iv),
                ),
            },
    ;

    /// Encrypts the bytes of `string` and returns the ciphertext as base64 text.
    fn encrypt_str_to_base64(&self, string: &str) -> (text: String)
        requires
            self.ciphertext_of(string.spec_bytes()).len() <= MAX_BASE64_INPUT,
        ensures
            text@ == base64_text(self.ciphertext_of(string.spec_bytes())),
    {
        self.encrypt_to_base64(string.as_bytes())
    }

    /// Encrypts the bytes of `string`.
    fn encrypt_str_to_bytes(&self, string: &str) -> (bytes: Vec<u8>)
        ensures
            bytes@ == self.ciphertext_of(string.spec_bytes()),
    {
        self.encrypt_to_bytes(string.as_bytes())
    }

    /// Encrypts `bytes` and returns the ciphertext as base64 text.
    fn encrypt_bytes_to_base64(&self, bytes: &[u8]) -> (text: String)
        requires
            self.ciphertext_of(bytes@).len() <= MAX_BASE64_INPUT,
        ensures
            text@ == base64_text(self.ciphertext_of(bytes@)),
    {
        self.encrypt_to_base64(bytes)
    }

    /// Encrypts `bytes`.
    fn encrypt_bytes_to_bytes(&self, bytes: &[u8]) -> (ciphertext: Vec<u8>)
        ensures
            ciphertext@ == self.ciphertext_of(bytes@),
    {
        self.encrypt_to_bytes(bytes)
    }

    /// Encrypts `data` and returns the ciphertext as base64 text.
    fn encrypt_to_base64(&self, data: &[u8]) -> (text: String)
        requires
            self.ciphertext_of(data@).len() <= MAX_BASE64_INPUT,
        ensures
            text@ == base64_text(self.ciphertext_of(data@)),
    {
        let ciphertext = self.encrypt_to_bytes(data);
        encode_base64(ciphertext.as_slice()).unwrap()
    }

    /// Encrypts `data`.
    fn encrypt_to_bytes(&self, data: &[u8]) -> (ciphertext: Vec<u8>)
        ensures
            ciphertext@ == self.ciphertext_of(data@),
    ;

    /// Decodes the base64 text `base64`, decrypts it and returns the plaintext as
    /// a string.
    fn decrypt_base64_to_string(&self, base64: &str) -> (text: Result<String, CryptoError>)
        ensures
            match decoded_base64(base64.spec_bytes()) {
                None => text matches Err(x) && x == CryptoError::Base64DecodeError,
                Some(ciphertext) => match self.plaintext_of(ciphertext) {
                    Err(e) => text matches Err(x) && x == e,
                    Ok(data) => match text_of(data) {
                        Ok(chars) => text matches Ok(t) && t@ == chars,
                        Err(e) => text matches Err(x) && x == e,
                    },
                },
            },
    {
        let plaintext = match self.decrypt_base64_to_bytes(base64) {
            Ok(plaintext) => plaintext,
            Err(e) => {
                return Err(e);
            },
        };
        text_from_utf8(plaintext)
    }

    /// Decodes the base64 text `base64` and decrypts it.
    fn decrypt_base64_to_bytes(&self, base64: &str) -> (plaintext: Result<Vec<u8>, CryptoError>)
        ensures
            match decoded_base64(base64.spec_bytes()) {
                None => plaintext matches Err(x) && x == CryptoError::Base64DecodeError,
                Some(ciphertext) => match self.plaintext_of(ciphertext) {
                    Ok(data) => plaintext matches Ok(p) && p@ == data,
                    Err(e) => plaintext matches Err(x) && x == e,
                },
            },
    {
        match decode_base64(base64) {
            Ok(ciphertext) => self.decrypt_bytes_to_bytes(ciphertext.as_slice()),
            Err(e) => Err(e),
        }
    }

    /// Decrypts `bytes`.
    fn decrypt_bytes_to_bytes(&self, bytes: &[u8]) -> (plaintext: Result<Vec<u8>, CryptoError>)
        ensures
            match self.plaintext_of(bytes@) {
                Ok(data) => plaintext matches Ok(p) && p@ == data,
                Err(e) => plaintext matches Err(x) && x == e,
            },
    ;
}

/// Encryption under one key with the block cipher `C`, padded as PKCS#7.
pub struct Crypto<C: BlockCipher> {
    cipher: C,
}

impl<C: BlockCipher> Crypto<C> {
    /// The cipher that does the work.
    pub closed spec fn cipher(&self) -> &C {
        &self.cipher
    }

    /// Wraps a cipher that has its key already.
    pub fn from_cipher(cipher: C) -> (crypto: Self)
        ensures
            *crypto.cipher() == cipher,
    {
        Crypto { cipher }
    }

    /// Returns the cipher that does the work, for a caller that runs a pipeline
    /// of its own.
    pub fn block_cipher(&self) -> (cipher: &C)
        ensures
            cipher == self.cipher(),
    {
        &self.cipher
    }
}

impl<C: BlockCipher> CryptoTrait for Crypto<C> {
    open spec fn refusal(key: Seq<u8>, iv: Option<Seq<u8>>) -> Option<CryptoError> {
        if !C::valid_key_len(key.len()) {
            Some(CryptoError::InvalidKeyLength)
        } else if iv matches Some(v) && v.len() != C::spec_block_size() {
            Some(CryptoError::InvalidIvLength)
        } else {
            None
        }
    }

    open spec fn set_up_with(&self, key: Seq<u8>, iv: Option<Seq<u8>>) -> bool {
        self.cipher().keyed_by(key, iv)
    }

    open spec fn ciphertext_of(&self, data: Seq<u8>) -> Seq<u8> {
        encrypted(self.cipher(), data)
    }

    open spec fn plaintext_of(&self, data: Seq<u8>) -> Result<Seq<u8>, CryptoError> {
        decrypted(self.cipher(), data)
    }

    fn new(key: &str, iv: Option<&str>) -> (crypto: Result<Self, CryptoError>) {
        let made = match iv {
            Some(vector) => C::new(key.as_bytes(), Some(vector.as_bytes())),
            None => C::new(key.as_bytes(), None),
        };
        match made {
            Ok(cipher) => Ok(Crypto { cipher }),
            Err(e) => Err(e),
        }
    }

    fn encrypt_to_bytes(&self, data: &[u8]) -> (ciphertext: Vec<u8>) {
        let mut ciphertext: Vec<u8> = Vec::new();
        let _ = encrypt_stream(&self.cipher, data, &mut ciphertext, default_chunk_size::<C>());
        ciphertext
    }

    fn decrypt_bytes_to_bytes(&self, bytes: &[u8]) -> (plaintext: Result<Vec<u8>, CryptoError>) {
        let mut plaintext: Vec<u8> = Vec::new();
        match decrypt_stream(&self.cipher, bytes, &mut plaintext, default_chunk_size::<C>()) {
            Ok(()) => Ok(plaintext),
            Err(e) => Err(e),
        }
    }
}

} // verus!
