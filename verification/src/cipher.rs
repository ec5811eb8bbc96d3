//! The block cipher that a pipeline drives, and a small reference cipher.

use crate::buffer::copy_bytes;
use crate::error::CryptoError;
use crate::padding::MAX_BLOCK_SIZE;
use vstd::prelude::*;

verus! {

/// A keyed, invertible transform on blocks of a fixed size.
///
/// The pipeline never looks inside a cipher. It relies on three things only:
/// that the block size lies between 1 and [`MAX_BLOCK_SIZE`], that both
/// transforms keep the length of a block, and that decrypting undoes encrypting.
/// An implementation states its transforms as functions on byte sequences and
/// proves those three facts about them.
pub trait BlockCipher: Sized {
    /// The number of bytes in one block, a constant of the cipher.
    spec fn spec_block_size() -> nat;

    /// Whether the cipher accepts a key of `len` bytes.
    spec fn valid_key_len(len: nat) -> bool;

    /// Whether this value is the cipher set up with `key` and `iv`.
    spec fn keyed_by(&self, key: Seq<u8>, iv: Option<Seq<u8>>) -> bool;

    /// The ciphertext block for a plaintext block.
    spec fn encrypt_spec(&self, block: Seq<u8>) -> Seq<u8>;

    /// The plaintext block for a ciphertext block.
    spec fn decrypt_spec(&self, block: Seq<u8>) -> Seq<u8>;

    /// The block size is at least one byte and small enough for the pad length to
    /// fit in a byte.
    proof fn lemma_block_size()
        ensures
            1 <= Self::spec_block_size() <= MAX_BLOCK_SIZE,
    ;

    /// Both transforms map a block to a block.
    proof fn lemma_block_len(&self, block: Seq<u8>)
        requires
            block.len() == Self::spec_block_size(),
        ensures
            self.encrypt_spec(block).len() == Self::spec_block_size(),
            self.decrypt_spec(block).len() == Self::spec_block_size(),
    ;

    /// Decrypting an encrypted block gives the block back.
    proof fn lemma_decrypt_encrypt(&self, block: Seq<u8>)
        requires
            block.len() == Self::spec_block_size(),
        ensures
            self.decrypt_spec(self.encrypt_spec(block)) == block,
    ;

    /// Two ciphers set up with the same key and the same initialization vector
    /// transform every block alike.
    proof fn lemma_same_key(&self, other: &Self, key: Seq<u8>, iv: Option<Seq<u8>>, block: Seq<u8>)
        requires
            self.keyed_by(key, iv),
            other.keyed_by(key, iv),
        ensures
            self.encrypt_spec(block) == other.encrypt_spec(block),
            self.decrypt_spec(block) == other.decrypt_spec(block),
    ;

    /// Sets the cipher up with a key and, where the caller has one, an
    /// initialization vector of one block.
    ///
    /// The key length is checked first, so a call with both a bad key and a bad
    /// initialization vector reports the key.
    fn new(key: &[u8], iv: Option<&[u8]>) -> (cipher: Result<Self, CryptoError>)
        ensures
            cipher is Ok <==> Self::valid_key_len(key@.len()) && (iv matches Some(v) ==> v@.len()
                == Self::spec_block_size()),
            cipher matches Ok(c) ==> c.keyed_by(
                key@,
                match iv {
                    Some(v) => Some(v@),
                    None => None,
                },
            ),
            cipher matches Err(e) ==> e == (if Self::valid_key_len(key@.len()) {
                CryptoError::InvalidIvLength
            } else {
                CryptoError::InvalidKeyLength
            }),
    ;

    /// Returns the number of bytes in one block.
    fn block_size() -> (size: usize)
        ensures
            size == Self::spec_block_size(),
    ;

    /// Encrypts one block in place.
    fn encrypt_block(&self, block: &mut Vec<u8>)
        requires
            old(block)@.len() == Self::spec_block_size(),
        ensures
            final(block)@ == self.encrypt_spec(old(block)@),
    ;

    /// Decrypts one block in place.
    fn decrypt_block(&self, block: &mut Vec<u8>)
        requires
            old(block)@.len() == Self::spec_block_size(),
        ensures
            final(block)@ == self.decrypt_spec(old(block)@),
    ;
}

/// The block size and the key length of [`XorCipher`].
pub const XOR_BLOCK_SIZE: usize = 16;

/// The byte of `bytes` at `i`, or zero where `bytes` is shorter.
pub open spec fn byte_at(bytes: Seq<u8>, i: int) -> u8 {
    if 0 <= i < bytes.len() {
        bytes[i]
    } else {
        0u8
    }
}

/// A plaintext byte under key byte `k` and vector byte `v`: XOR with the key, then
/// a shift by the vector modulo 256.
pub open spec fn mask_byte(p: u8, k: u8, v: u8) -> u8 {
    (((p ^ k) as int + v as int) % 256) as u8
}

/// The inverse of [`mask_byte`].
pub open spec fn unmask_byte(c: u8, k: u8, v: u8) -> u8 {
    (((c as int - v as int) % 256) as u8) ^ k
}

/// A reference cipher for examples and tests.
///
/// Each byte of a block is XORed with the key byte at its position and then
/// shifted by the byte of the initialization vector at that position. It keeps
/// nothing secret; it stands where a real cipher would, so that a pipeline can
/// be run and its output predicted by hand.
pub struct XorCipher {
    key: Vec<u8>,
    iv: Vec<u8>,
}

impl XorCipher {
    #[verifier::type_invariant]
    spec fn well_formed(self) -> bool {
        self.key@.len() == XOR_BLOCK_SIZE && self.iv@.len() == XOR_BLOCK_SIZE
    }

    /// The key of this cipher.
    pub closed spec fn key(self) -> Seq<u8> {
        self.key@
    }

    /// The initialization vector of this cipher; sixteen zero bytes where none
    /// was given.
    pub closed spec fn iv(self) -> Seq<u8> {
        self.iv@
    }
}

/// The initialization vector that [`XorCipher`] works with: the one given, or
/// sixteen zero bytes.
pub open spec fn xor_iv(iv: Option<Seq<u8>>) -> Seq<u8> {
    match iv {
        Some(v) => v,
        None => Seq::new(XOR_BLOCK_SIZE as nat, |i: int| 0u8),
    }
}

impl BlockCipher for XorCipher {
    open spec fn spec_block_size() -> nat {
        XOR_BLOCK_SIZE as nat
    }

    open spec fn valid_key_len(len: nat) -> bool {
        len == XOR_BLOCK_SIZE
    }

    open spec fn keyed_by(&self, key: Seq<u8>, iv: Option<Seq<u8>>) -> bool {
        self.key() == key && self.iv() == xor_iv(iv)
    }

    open spec fn encrypt_spec(&self, block: Seq<u8>) -> Seq<u8> {
        Seq::new(
            block.len(),
            |i: int| mask_byte(block[i], byte_at(self.key(), i), byte_at(self.iv(), i)),
        )
    }

    open spec fn decrypt_spec(&self, block: Seq<u8>) -> Seq<u8> {
        Seq::new(
            block.len(),
            |i: int| unmask_byte(block[i], byte_at(self.key(), i), byte_at(self.iv(), i)),
        )
    }

    proof fn lemma_block_size() {
    }

    proof fn lemma_block_len(&self, block: Seq<u8>) {
    }

    proof fn lemma_decrypt_encrypt(&self, block: Seq<u8>) {
        let back = self.decrypt_spec(self.encrypt_spec(block));
        assert forall|i: int| 0 <= i < block.len() implies back[i] == block[i] by {
            lemma_unmask_mask(block[i], byte_at(self.key(), i), byte_at(self.iv(), i));
        }
    }

    proof fn lemma_same_key(
        &self,
        other: &Self,
        key: Seq<u8>,
        iv: Option<Seq<u8>>,
        block: Seq<u8>,
    ) {
    }

    fn new(key: &[u8], iv: Option<&[u8]>) -> (cipher: Result<Self, CryptoError>) {
        if key.len() != XOR_BLOCK_SIZE {
            return Err(CryptoError::InvalidKeyLength);
        }
        let mut vector: Vec<u8> = Vec::new();
        match iv {
            Some(v) => {
                if v.len() != XOR_BLOCK_SIZE {
                    return Err(CryptoError::InvalidIvLength);
                }
                copy_bytes(v, &mut vector);
            },
            None => {
                let mut i: usize = 0;
                while i < XOR_BLOCK_SIZE
                    invariant
                        i <= XOR_BLOCK_SIZE,
                        vector@.len() == i,
                        forall|j: int| 0 <= j < i ==> vector@[j] == 0u8,
                    decreases XOR_BLOCK_SIZE - i,
                {
                    vector.push(0u8);
                    i = i + 1;
                }
                assert(vector@ =~= xor_iv(None));
            },
        }
        let mut secret: Vec<u8> = Vec::new();
        copy_bytes(key, &mut secret);
        Ok(XorCipher { key: secret, iv: vector })
    }

    fn block_size() -> (size: usize) {
        XOR_BLOCK_SIZE
    }

    fn encrypt_block(&self, block: &mut Vec<u8>) {
        proof {
            use_type_invariant(self);
        }
        let mut i: usize = 0;
        while i < XOR_BLOCK_SIZE
            invariant
                i <= XOR_BLOCK_SIZE,
                block@.len() == XOR_BLOCK_SIZE,
                self.key@.len() == XOR_BLOCK_SIZE,
                self.iv@.len() == XOR_BLOCK_SIZE,
                forall|j: int|
                    0 <= j < i ==> block@[j] == mask_byte(
                        old(block)@[j],
                        self.key@[j],
                        self.iv@[j],
                    ),
                forall|j: int| i <= j < XOR_BLOCK_SIZE ==> block@[j] == old(block)@[j],
            decreases XOR_BLOCK_SIZE - i,
        {
            let mixed: u8 = block[i] ^ self.key[i];
            let shifted: u16 = (mixed as u16 + self.iv[i] as u16) % 256;
            block.set(i, shifted as u8);
            i = i + 1;
        }
    }

    fn decrypt_block(&self, block: &mut Vec<u8>) {
        proof {
            use_type_invariant(self);
        }
        let mut i: usize = 0;
        while i < XOR_BLOCK_SIZE
            invariant
                i <= XOR_BLOCK_SIZE,
                block@.len() == XOR_BLOCK_SIZE,
                self.key@.len() == XOR_BLOCK_SIZE,
                self.iv@.len() == XOR_BLOCK_SIZE,
                forall|j: int|
                    0 <= j < i ==> block@[j] == unmask_byte(
                        old(block)@[j],
                        self.key@[j],
                        self.iv@[j],
                    ),
                forall|j: int| i <= j < XOR_BLOCK_SIZE ==> block@[j] == old(block)@[j],
            decreases XOR_BLOCK_SIZE - i,
        {
            let shifted: u16 = (block[i] as u16 + 256 - self.iv[i] as u16) % 256;
            block.set(i, (shifted as u8) ^ self.key[i]);
            i = i + 1;
        }
    }
}

/// [`unmask_byte`] undoes [`mask_byte`].
pub proof fn lemma_unmask_mask(p: u8, k: u8, v: u8)
    ensures
        unmask_byte(mask_byte(p, k, v), k, v) == p,
{
    let x: u8 = p ^ k;
    assert((x ^ k) == p) by (bit_vector)
        requires
            x == p ^ k,
    ;
}

} // verus!
