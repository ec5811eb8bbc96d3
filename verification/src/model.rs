//! What encryption and decryption of a whole stream mean, as functions on byte
//! sequences.
//!
//! The executable pipelines are specified against these functions. The output
//! of a whole stream says nothing about chunks or buffers: a stream is padded
//! and transformed block by block, and that is all. The chunk size enters only
//! where the functions say how much of the output has been written while the
//! stream is still open.

use crate::cipher::BlockCipher;
use crate::error::CryptoError;
use crate::padding::{lemma_padded_len, pad_len, padded, unpadded, valid_padding};
use vstd::prelude::*;

verus! {

/// The direction in which a stream is transformed.
#[derive(Clone, Copy, Debug, PartialEq, Eq, Structural)]
pub enum Mode {
    /// Plaintext in, ciphertext out.
    Encrypt,
    /// Ciphertext in, plaintext out.
    Decrypt,
}

/// One block under the cipher, in the direction of `mode`.
pub open spec fn transform_block<C: BlockCipher>(cipher: &C, mode: Mode, block: Seq<u8>) -> Seq<
    u8,
> {
    match mode {
        Mode::Encrypt => cipher.encrypt_spec(block),
        Mode::Decrypt => cipher.decrypt_spec(block),
    }
}

/// Each whole block of `data` transformed, in order. Bytes after the last whole
/// block are left out.
pub open spec fn transform_blocks<C: BlockCipher>(cipher: &C, mode: Mode, data: Seq<u8>) -> Seq<
    u8,
>
    decreases data.len(),
{
    let size = C::spec_block_size() as int;
    if size <= 0 || data.len() < size {
        Seq::empty()
    } else {
        transform_block(cipher, mode, data.take(size)) + transform_blocks(
            cipher,
            mode,
            data.skip(size),
        )
    }
}

/// Each whole block of `data` encrypted, in order.
pub open spec fn encrypt_blocks<C: BlockCipher>(cipher: &C, data: Seq<u8>) -> Seq<u8> {
    transform_blocks(cipher, Mode::Encrypt, data)
}

/// Each whole block of `data` decrypted, in order.
pub open spec fn decrypt_blocks<C: BlockCipher>(cipher: &C, data: Seq<u8>) -> Seq<u8> {
    transform_blocks(cipher, Mode::Decrypt, data)
}

/// The ciphertext of `plaintext`: the padded plaintext, encrypted block by block.
pub open spec fn encrypted<C: BlockCipher>(cipher: &C, plaintext: Seq<u8>) -> Seq<u8> {
    encrypt_blocks(cipher, padded(plaintext, C::spec_block_size()))
}

/// A decrypted stream without its padding, or the failure to find well-formed
/// padding in its last block.
pub open spec fn strip_padding(plain: Seq<u8>, block: nat) -> Result<Seq<u8>, CryptoError> {
    if plain.len() < block || !valid_padding(plain.skip(plain.len() - block)) {
        Err(CryptoError::InvalidPadding)
    } else {
        Ok(unpadded(plain))
    }
}

/// The plaintext of `ciphertext`, or the reason why it has none.
///
/// A ciphertext that is not a whole number of blocks is truncated. One that is,
/// but is empty or whose last block does not decrypt to well-formed padding, has
/// invalid padding.
pub open spec fn decrypted<C: BlockCipher>(cipher: &C, ciphertext: Seq<u8>) -> Result<
    Seq<u8>,
    CryptoError,
> {
    if ciphertext.len() % C::spec_block_size() != 0 {
        Err(CryptoError::TruncatedCiphertext)
    } else {
        strip_padding(decrypt_blocks(cipher, ciphertext), C::spec_block_size())
    }
}

/// What a whole stream `input` turns into in the direction of `mode`.
pub open spec fn stream_output<C: BlockCipher>(cipher: &C, mode: Mode, input: Seq<u8>) -> Result<
    Seq<u8>,
    CryptoError,
> {
    match mode {
        Mode::Encrypt => Ok(encrypted(cipher, input)),
        Mode::Decrypt => decrypted(cipher, input),
    }
}

/// How many bytes at the front of a stream have been transformed and written
/// when `total` bytes of it have arrived in chunks of `chunk` bytes.
///
/// Nothing is written before the first chunk is complete. From then on every
/// complete chunk has been worked on, but for its last block, which is kept back
/// until more input or the end of the stream shows whether it is the final one.
pub open spec fn released_len(total: nat, chunk: nat, block: nat) -> nat {
    if chunk == 0 || total < chunk {
        0
    } else {
        (total - total % chunk - block) as nat
    }
}

/// The output that has been written when the bytes of `input` have arrived and
/// the stream has not ended.
pub open spec fn released_output<C: BlockCipher>(
    cipher: &C,
    mode: Mode,
    input: Seq<u8>,
    chunk: nat,
) -> Seq<u8> {
    transform_blocks(
        cipher,
        mode,
        input.take(released_len(input.len(), chunk, C::spec_block_size()) as int),
    )
}

/// A multiple of `block` that is not zero is at least `block`, and stays a
/// multiple when one block is taken away.
pub proof fn lemma_whole_blocks_step(len: nat, block: nat)
    requires
        block >= 1,
        len % block == 0,
    ensures
        len < block ==> len == 0,
        len >= block ==> (len - block) % (block as int) == 0,
{
    if len < block {
        vstd::arithmetic::div_mod::lemma_small_mod(len, block);
    } else {
        vstd::arithmetic::div_mod::lemma_mod_sub_multiples_vanish(len as int, block as int);
    }
}

/// The sum of two lengths has the remainder of the second where the first is a
/// whole number of blocks.
pub proof fn lemma_whole_blocks_add(first: nat, second: nat, block: nat)
    requires
        block >= 1,
        first % block == 0,
    ensures
        (first + second) % block == second % block,
{
    vstd::arithmetic::div_mod::lemma_add_mod_noop(first as int, second as int, block as int);
    vstd::arithmetic::div_mod::lemma_mod_twice(second as int, block as int);
}

/// Transforming whole blocks keeps the length.
pub proof fn lemma_transform_blocks_len<C: BlockCipher>(cipher: &C, mode: Mode, data: Seq<u8>)
    requires
        data.len() % C::spec_block_size() == 0,
    ensures
        transform_blocks(cipher, mode, data).len() == data.len(),
    decreases data.len(),
{
    C::lemma_block_size();
    let size = C::spec_block_size();
    lemma_whole_blocks_step(data.len(), size);
    if data.len() >= size {
        cipher.lemma_block_len(data.take(size as int));
        lemma_transform_blocks_len(cipher, mode, data.skip(size as int));
    }
}

/// Transforming block by block distributes over concatenation at a block
/// boundary.
pub proof fn lemma_transform_blocks_concat<C: BlockCipher>(
    cipher: &C,
    mode: Mode,
    head: Seq<u8>,
    tail: Seq<u8>,
)
    requires
        head.len() % C::spec_block_size() == 0,
    ensures
        transform_blocks(cipher, mode, head + tail) == transform_blocks(cipher, mode, head)
            + transform_blocks(cipher, mode, tail),
    decreases head.len(),
{
    C::lemma_block_size();
    let size = C::spec_block_size();
    lemma_whole_blocks_step(head.len(), size);
    if head.len() >= size {
        let whole = head + tail;
        assert(whole.take(size as int) =~= head.take(size as int));
        assert(whole.skip(size as int) =~= head.skip(size as int) + tail);
        lemma_transform_blocks_concat(cipher, mode, head.skip(size as int), tail);
    }
}

/// A single block transforms to the cipher's transform of it.
pub proof fn lemma_single_block<C: BlockCipher>(cipher: &C, mode: Mode, block: Seq<u8>)
    requires
        block.len() == C::spec_block_size(),
    ensures
        transform_blocks(cipher, mode, block) == transform_block(cipher, mode, block),
{
    C::lemma_block_size();
    let size = C::spec_block_size() as int;
    assert(block.take(size) =~= block);
    assert(transform_blocks(cipher, mode, block.skip(size)) =~= Seq::<u8>::empty());
}

/// Decrypting what was encrypted block by block gives the blocks back.
pub proof fn lemma_decrypt_encrypt_blocks<C: BlockCipher>(cipher: &C, data: Seq<u8>)
    requires
        data.len() % C::spec_block_size() == 0,
    ensures
        decrypt_blocks(cipher, encrypt_blocks(cipher, data)) == data,
    decreases data.len(),
{
    C::lemma_block_size();
    let size = C::spec_block_size();
    lemma_whole_blocks_step(data.len(), size);
    if data.len() >= size {
        let first = data.take(size as int);
        let rest = data.skip(size as int);
        cipher.lemma_block_len(first);
        cipher.lemma_decrypt_encrypt(first);
        lemma_decrypt_encrypt_blocks(cipher, rest);
        lemma_transform_blocks_concat(
            cipher,
            Mode::Decrypt,
            cipher.encrypt_spec(first),
            encrypt_blocks(cipher, rest),
        );
        lemma_single_block(cipher, Mode::Decrypt, cipher.encrypt_spec(first));
    }
}

/// The padding of a stream is well formed when read from the last block of the
/// padded stream, and taking it away leaves the stream.
pub proof fn lemma_padded_is_valid(data: Seq<u8>, block: nat)
    requires
        1 <= block <= 255,
    ensures
        padded(data, block).len() >= block,
        valid_padding(padded(data, block).skip(padded(data, block).len() - block)),
        unpadded(padded(data, block)) == data,
        padded(data, block).last() == pad_len(data.len(), block),
{
    lemma_padded_len(data.len(), block);
    let whole = padded(data, block);
    let last = whole.skip(whole.len() - block);
    assert(whole.len() >= block) by (nonlinear_arith)
        requires
            whole.len() == (data.len() / block + 1) * block,
            block >= 1,
    ;
    assert forall|i: int| last.len() - last.last() <= i < last.len() implies last[i]
        == last.last() by {
    }
}

/// The ciphertext of a stream that begins with whole blocks is the encryption of
/// those blocks followed by the ciphertext of the rest.
pub proof fn lemma_encrypted_split<C: BlockCipher>(cipher: &C, head: Seq<u8>, tail: Seq<u8>)
    requires
        head.len() % C::spec_block_size() == 0,
    ensures
        encrypted(cipher, head + tail) == encrypt_blocks(cipher, head) + encrypted(cipher, tail),
{
    C::lemma_block_size();
    let size = C::spec_block_size();
    lemma_whole_blocks_add(head.len(), tail.len(), size);
    assert(padded(head + tail, size) =~= head + padded(tail, size));
    lemma_transform_blocks_concat(cipher, Mode::Encrypt, head, padded(tail, size));
}

/// Stripping the padding of a stream touches its last block only: what stands
/// before a tail of at least one block is kept as it is.
pub proof fn lemma_strip_split(head: Seq<u8>, tail: Seq<u8>, block: nat)
    requires
        1 <= block <= 255,
        tail.len() >= block || head.len() == 0,
    ensures
        strip_padding(head + tail, block) == (match strip_padding(tail, block) {
            Ok(rest) => Ok::<Seq<u8>, CryptoError>(head + rest),
            Err(e) => Err::<Seq<u8>, CryptoError>(e),
        }),
{
    let whole = head + tail;
    if head.len() > 0 {
        assert(whole.skip(whole.len() - block) =~= tail.skip(tail.len() - block));
        if strip_padding(tail, block) is Ok {
            assert(unpadded(whole) =~= head + unpadded(tail));
        }
    }
}

} // verus!
