//! PKCS#7 padding of the final block.
//!
//! Padding is always present: a stream whose length is already a multiple of the
//! block size gains one whole block of padding. That makes the padding removable
//! without ambiguity, because the last byte of a padded stream always says how
//! many bytes were added.

use crate::error::CryptoError;
use vstd::prelude::*;

verus! {

/// The largest block size for which the pad length still fits in one byte.
pub const MAX_BLOCK_SIZE: usize = 255;

/// The number of padding bytes that follow `used` bytes of data: between one byte
/// and a whole block.
pub open spec fn pad_len(used: nat, block_size: nat) -> nat {
    (block_size - used % block_size) as nat
}

/// `count` bytes, each holding the value `count`.
pub open spec fn pad_bytes(count: nat) -> Seq<u8> {
    Seq::new(count, |i: int| count as u8)
}

/// `data` followed by its padding.
pub open spec fn padded(data: Seq<u8>, block_size: nat) -> Seq<u8> {
    data + pad_bytes(pad_len(data.len(), block_size))
}

/// Whether `block` ends in well-formed padding: its last byte `p` lies between 1
/// and the length of the block, and each of the last `p` bytes equals `p`.
pub open spec fn valid_padding(block: Seq<u8>) -> bool {
    &&& block.len() >= 1
    &&& 1 <= block.last() <= block.len()
    &&& forall|i: int| block.len() - block.last() <= i < block.len() ==> block[i] == block.last()
}

/// `block` without the padding that its last byte announces.
pub open spec fn unpadded(block: Seq<u8>) -> Seq<u8> {
    block.take(block.len() - block.last())
}

/// Adds and removes the padding of a final block of a fixed size.
pub struct PaddingCodec {
    block_size: usize,
}

impl PaddingCodec {
    #[verifier::type_invariant]
    spec fn well_formed(self) -> bool {
        1 <= self.block_size <= MAX_BLOCK_SIZE
    }

    /// The block size that this codec pads to.
    pub closed spec fn spec_block_size(self) -> nat {
        self.block_size as nat
    }

    /// Creates a codec for blocks of `block_size` bytes, if a pad length for that
    /// size fits in a byte.
    pub fn new(block_size: usize) -> (codec: Option<PaddingCodec>)
        ensures
            codec is Some <==> 1 <= block_size <= MAX_BLOCK_SIZE,
            codec matches Some(c) ==> c.spec_block_size() == block_size,
    {
        if 1 <= block_size && block_size <= MAX_BLOCK_SIZE {
            Some(PaddingCodec { block_size })
        } else {
            None
        }
    }

    /// Returns the block size that this codec pads to.
    pub fn block_size(&self) -> (size: usize)
        ensures
            size == self.spec_block_size(),
            1 <= size <= MAX_BLOCK_SIZE,
    {
        proof {
            use_type_invariant(self);
        }
        self.block_size
    }

    /// Completes the final block of a stream.
    ///
    /// `block` holds the bytes of the stream that did not fill a block of their
    /// own, at most one block of them. The padding is appended: a block that was
    /// already full gains a whole block of padding.
    pub fn pad(&self, block: &mut Vec<u8>)
        requires
            old(block)@.len() <= self.spec_block_size(),
        ensures
            final(block)@ == padded(old(block)@, self.spec_block_size()),
            final(block)@.len() % self.spec_block_size() == 0,
            final(block)@.len() > old(block)@.len(),
    {
        proof {
            use_type_invariant(self);
        }
        let used: usize = block.len();
        let count: usize = self.block_size - used % self.block_size;
        let value: u8 = count as u8;
        let mut written: usize = 0;
        while written < count
            invariant
                written <= count,
                count == pad_len(used as nat, self.block_size as nat),
                1 <= count <= MAX_BLOCK_SIZE,
                value == count,
                used == old(block)@.len(),
                block@.len() == used + written,
                block@.take(used as int) == old(block)@,
                forall|i: int| used <= i < used + written ==> block@[i] == value,
            decreases count - written,
        {
            block.push(value);
            written = written + 1;
        }
        assert(block@.len() % self.spec_block_size() == 0) by {
            lemma_padded_len(old(block)@.len(), self.spec_block_size());
        }
    }

    /// Checks the padding of a final block and returns how many of its bytes are
    /// data.
    ///
    /// Every byte of the block is examined, whether or not an earlier one has
    /// already shown the padding to be wrong.
    pub fn unpad(&self, block: &[u8]) -> (used: Result<usize, CryptoError>)
        ensures
            used is Ok <==> block@.len() == self.spec_block_size() && valid_padding(block@),
            used matches Ok(n) ==> n == block@.len() - block@.last(),
            used matches Err(e) ==> e == CryptoError::InvalidPadding,
    {
        proof {
            use_type_invariant(self);
        }
        let len: usize = block.len();
        if len != self.block_size {
            return Err(CryptoError::InvalidPadding);
        }
        let last: u8 = block[len - 1];
        let claimed: usize = last as usize;
        let in_range: bool = 1 <= claimed && claimed <= len;
        let start: usize = if in_range {
            len - claimed
        } else {
            0
        };
        let mut uniform: bool = true;
        let mut i: usize = 0;
        while i < len
            invariant
                i <= len,
                len == block@.len(),
                start <= len,
                uniform <==> forall|j: int| start <= j < i ==> block@[j] == last,
            decreases len - i,
        {
            let same: bool = block[i] == last;
            uniform = uniform && (i < start || same);
            i = i + 1;
        }
        if in_range && uniform {
            Ok(len - claimed)
        } else {
            Err(CryptoError::InvalidPadding)
        }
    }
}

/// A padded stream is a whole number of blocks, and longer than the data by
/// between one byte and one block.
pub proof fn lemma_padded_len(used: nat, block_size: nat)
    requires
        block_size >= 1,
    ensures
        1 <= pad_len(used, block_size) <= block_size,
        (used + pad_len(used, block_size)) % block_size == 0,
        used + pad_len(used, block_size) == (used / block_size + 1) * block_size,
{
    let q = used / block_size;
    let r = used % block_size;
    assert(used == q * block_size + r) by {
        vstd::arithmetic::div_mod::lemma_fundamental_div_mod(used as int, block_size as int);
        assert(block_size * q == q * block_size) by (nonlinear_arith);
    }
    assert((q + 1) * block_size == q * block_size + block_size) by (nonlinear_arith);
    assert(((q + 1) * block_size) % block_size == 0) by {
        vstd::arithmetic::div_mod::lemma_mod_multiples_basic((q + 1) as int, block_size as int);
    }
}

} // verus!
