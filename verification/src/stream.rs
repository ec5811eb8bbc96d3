//! Whole streams held in memory, run through a pipeline in one call.

use crate::cipher::BlockCipher;
use crate::error::CryptoError;
use crate::model::{decrypted, encrypted, released_output, Mode};
use crate::pipeline::{valid_chunk_size, StreamCipherPipeline};
use vstd::prelude::*;

verus! {

/// The chunk size used where the caller names none.
pub const DEFAULT_CHUNK_SIZE: usize = 4096;

/// The default chunk size for a cipher with blocks of `block` bytes: the largest
/// whole number of blocks within [`DEFAULT_CHUNK_SIZE`].
pub open spec fn spec_default_chunk_size(block: nat) -> nat {
    (DEFAULT_CHUNK_SIZE as nat / block) * block
}

/// Returns the chunk size used where the caller names none: 4096 bytes for every
/// block size that divides 4096, and the largest whole number of blocks below
/// that for any other.
pub fn default_chunk_size<C: BlockCipher>() -> (chunk: usize)
    ensures
        chunk == spec_default_chunk_size(C::spec_block_size()),
        valid_chunk_size(chunk as nat, C::spec_block_size()),
        DEFAULT_CHUNK_SIZE as nat % C::spec_block_size() == 0 ==> chunk == DEFAULT_CHUNK_SIZE,
{
    proof {
        C::lemma_block_size();
    }
    let size: usize = C::block_size();
    let blocks: usize = DEFAULT_CHUNK_SIZE / size;
    proof {
        let b = size as int;
        let q = blocks as int;
        vstd::arithmetic::div_mod::lemma_fundamental_div_mod(DEFAULT_CHUNK_SIZE as int, b);
        vstd::arithmetic::div_mod::lemma_mod_multiples_basic(q, b);
        assert(b * q == q * b) by (nonlinear_arith);
        assert(q >= 1) by {
            if q <= 0 {
                assert(q * b <= 0) by (nonlinear_arith)
                    requires
                        q <= 0,
                        b >= 1,
                ;
            }
        }
        assert(q * b >= b) by (nonlinear_arith)
            requires
                q >= 1,
                b >= 1,
        ;
    }
    blocks * size
}

/// Encrypts the stream `source` in chunks of `chunk_size` bytes and appends the
/// ciphertext to `sink`.
///
/// The ciphertext is the same for every valid chunk size. An invalid chunk size
/// is refused before anything is written.
pub fn encrypt_stream<C: BlockCipher>(
    cipher: &C,
    source: &[u8],
    sink: &mut Vec<u8>,
    chunk_size: usize,
) -> (result: Result<(), CryptoError>)
    ensures
        valid_chunk_size(chunk_size as nat, C::spec_block_size()) ==> result is Ok && final(sink)@
            == old(sink)@ + encrypted(cipher, source@),
        !valid_chunk_size(chunk_size as nat, C::spec_block_size()) ==> result == Err::<
            (),
            CryptoError,
        >(CryptoError::InvalidState) && final(sink)@ == old(sink)@,
{
    let mut pipeline = match StreamCipherPipeline::new(cipher, Mode::Encrypt, chunk_size) {
        Ok(pipeline) => pipeline,
        Err(e) => {
            return Err(e);
        },
    };
    let _ = pipeline.feed(source, sink);
    let _ = pipeline.finish(sink);
    pipeline.close()
}

/// Decrypts the stream `source` in chunks of `chunk_size` bytes and appends the
/// plaintext to `sink`.
///
/// The plaintext is the same for every valid chunk size. Where the ciphertext
/// turns out to be truncated or wrongly padded, the plaintext of the chunks that
/// were worked on before the end was reached has been written already and stays
/// in `sink`: prior output, cut short. How much that is depends on the chunk
/// size.
pub fn decrypt_stream<C: BlockCipher>(
    cipher: &C,
    source: &[u8],
    sink: &mut Vec<u8>,
    chunk_size: usize,
) -> (result: Result<(), CryptoError>)
    ensures
        valid_chunk_size(chunk_size as nat, C::spec_block_size()) ==> (match decrypted(
            cipher,
            source@,
        ) {
            Ok(plain) => result is Ok && final(sink)@ == old(sink)@ + plain,
            Err(e) => result == Err::<(), CryptoError>(e) && final(sink)@ == old(sink)@
                + released_output(cipher, Mode::Decrypt, source@, chunk_size as nat),
        }),
        !valid_chunk_size(chunk_size as nat, C::spec_block_size()) ==> result == Err::<
            (),
            CryptoError,
        >(CryptoError::InvalidState) && final(sink)@ == old(sink)@,
{
    let mut pipeline = match StreamCipherPipeline::new(cipher, Mode::Decrypt, chunk_size) {
        Ok(pipeline) => pipeline,
        Err(e) => {
            return Err(e);
        },
    };
    let _ = pipeline.feed(source, sink);
    let result = pipeline.finish(sink);
    match result {
        Ok(()) => pipeline.close(),
        Err(e) => Err(e),
    }
}

} // verus!
