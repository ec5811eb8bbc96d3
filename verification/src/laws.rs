//! The laws that relate encryption, decryption and the pipeline, each proved
//! for every cipher, every input and every valid chunk size.

use crate::cipher::BlockCipher;
use crate::error::CryptoError;
use crate::model::{
    decrypt_blocks, decrypted, encrypt_blocks, encrypted, lemma_decrypt_encrypt_blocks,
    lemma_padded_is_valid, lemma_single_block, lemma_transform_blocks_concat,
    lemma_transform_blocks_len, lemma_whole_blocks_step, transform_block, transform_blocks,
    Mode,
};
use crate::padding::{lemma_padded_len, pad_bytes, padded, valid_padding};
use crate::pipeline::{Stage, StreamCipherPipeline};
use vstd::prelude::*;

verus! {

/// Round trip: decrypting the ciphertext of any byte sequence gives that byte
/// sequence back.
pub proof fn lemma_round_trip<C: BlockCipher>(cipher: &C, data: Seq<u8>)
    ensures
        decrypted(cipher, encrypted(cipher, data)) == Ok::<Seq<u8>, CryptoError>(data),
{
    C::lemma_block_size();
    let size = C::spec_block_size();
    let whole = padded(data, size);
    lemma_padded_len(data.len(), size);
    lemma_padded_is_valid(data, size);
    lemma_transform_blocks_len(cipher, Mode::Encrypt, whole);
    lemma_decrypt_encrypt_blocks(cipher, whole);
}

/// Round trip through two pipelines: where a decrypting pipeline has taken in
/// the whole output of an encrypting pipeline with the same cipher, it does not
/// fail for truncation or padding, and once it has ended well it has written
/// what the encrypting one took in. The two chunk sizes need not be the same.
pub proof fn lemma_pipeline_round_trip<C: BlockCipher>(
    encryptor: &StreamCipherPipeline<C>,
    decryptor: &StreamCipherPipeline<C>,
)
    requires
        encryptor.wf(),
        decryptor.wf(),
        encryptor.mode() == Mode::Encrypt,
        decryptor.mode() == Mode::Decrypt,
        encryptor.cipher() == decryptor.cipher(),
        encryptor.ended_well(),
        decryptor.consumed() == encryptor.emitted(),
    ensures
        decryptor.ended_well() ==> decryptor.emitted() == encryptor.consumed(),
        decryptor.fault() != Some(CryptoError::TruncatedCiphertext),
        decryptor.fault() != Some(CryptoError::InvalidPadding),
{
    encryptor.lemma_output();
    decryptor.lemma_output();
    decryptor.lemma_fault();
    lemma_round_trip(encryptor.cipher(), encryptor.consumed());
}

/// Two ciphers set up with the same key and initialization vector encrypt and
/// decrypt every stream alike.
pub proof fn lemma_same_key<C: BlockCipher>(
    first: &C,
    second: &C,
    key: Seq<u8>,
    iv: Option<Seq<u8>>,
    data: Seq<u8>,
)
    requires
        first.keyed_by(key, iv),
        second.keyed_by(key, iv),
    ensures
        encrypted(first, data) == encrypted(second, data),
        decrypted(first, data) == decrypted(second, data),
{
    let whole = padded(data, C::spec_block_size());
    lemma_same_key_blocks(first, second, key, iv, Mode::Encrypt, whole);
    lemma_same_key_blocks(first, second, key, iv, Mode::Decrypt, data);
}

/// Two ciphers set up with the same key and initialization vector transform
/// every run of blocks alike.
pub proof fn lemma_same_key_blocks<C: BlockCipher>(
    first: &C,
    second: &C,
    key: Seq<u8>,
    iv: Option<Seq<u8>>,
    mode: Mode,
    data: Seq<u8>,
)
    requires
        first.keyed_by(key, iv),
        second.keyed_by(key, iv),
    ensures
        transform_blocks(first, mode, data) == transform_blocks(second, mode, data),
    decreases data.len(),
{
    let size = C::spec_block_size() as int;
    if size > 0 && data.len() >= size {
        first.lemma_same_key(second, key, iv, data.take(size));
        lemma_same_key_blocks(first, second, key, iv, mode, data.skip(size));
    }
}

/// Padding is always added: the ciphertext is one block longer than the whole
/// blocks of the input, whether or not the input ends on a block boundary.
pub proof fn lemma_ciphertext_len<C: BlockCipher>(cipher: &C, data: Seq<u8>)
    ensures
        encrypted(cipher, data).len() == (data.len() / C::spec_block_size() + 1)
            * C::spec_block_size(),
        encrypted(cipher, data).len() % C::spec_block_size() == 0,
        data.len() < encrypted(cipher, data).len() <= data.len() + C::spec_block_size(),
{
    C::lemma_block_size();
    let size = C::spec_block_size();
    lemma_padded_len(data.len(), size);
    lemma_transform_blocks_len(cipher, Mode::Encrypt, padded(data, size));
}

/// An input that is a whole number of blocks gains a full block of padding: its
/// ciphertext is the encryption of its blocks followed by the encryption of a
/// block in which every byte holds the block size.
pub proof fn lemma_aligned_input_gains_a_block<C: BlockCipher>(cipher: &C, data: Seq<u8>)
    requires
        data.len() % C::spec_block_size() == 0,
    ensures
        encrypted(cipher, data) == encrypt_blocks(cipher, data) + cipher.encrypt_spec(
            pad_bytes(C::spec_block_size()),
        ),
        encrypted(cipher, data).len() == data.len() + C::spec_block_size(),
{
    C::lemma_block_size();
    let size = C::spec_block_size();
    let block = pad_bytes(size);
    assert(padded(data, size) =~= data + block);
    lemma_transform_blocks_concat(cipher, Mode::Encrypt, data, block);
    lemma_single_block(cipher, Mode::Encrypt, block);
    lemma_transform_blocks_len(cipher, Mode::Encrypt, data);
    cipher.lemma_block_len(block);
}

/// The empty input encrypts to exactly one block, the encryption of a block of
/// padding, and that block decrypts to the empty input.
pub proof fn lemma_empty_input<C: BlockCipher>(cipher: &C)
    ensures
        encrypted(cipher, Seq::<u8>::empty()) == cipher.encrypt_spec(
            pad_bytes(C::spec_block_size()),
        ),
        encrypted(cipher, Seq::<u8>::empty()).len() == C::spec_block_size(),
        decrypted(cipher, cipher.encrypt_spec(pad_bytes(C::spec_block_size()))) == Ok::<
            Seq<u8>,
            CryptoError,
        >(Seq::<u8>::empty()),
{
    C::lemma_block_size();
    let empty = Seq::<u8>::empty();
    lemma_aligned_input_gains_a_block(cipher, empty);
    lemma_round_trip(cipher, empty);
}

/// Chunk-size independence: two pipelines with the same cipher and direction
/// that have taken in the same input and ended well have written the same
/// output, whatever their chunk sizes.
pub proof fn lemma_chunk_size_independence<C: BlockCipher>(
    first: &StreamCipherPipeline<C>,
    second: &StreamCipherPipeline<C>,
)
    requires
        first.wf(),
        second.wf(),
        first.cipher() == second.cipher(),
        first.mode() == second.mode(),
        first.consumed() == second.consumed(),
        first.ended_well(),
        second.ended_well(),
    ensures
        first.emitted() == second.emitted(),
{
    first.lemma_output();
    second.lemma_output();
}

/// Fragment independence: two open pipelines with the same cipher, direction
/// and chunk size that have taken in the same bytes have written the same output
/// and hold the same number of bytes, however the bytes were cut into
/// fragments. The same holds of the output of two that have ended well.
pub proof fn lemma_fragment_independence<C: BlockCipher>(
    first: &StreamCipherPipeline<C>,
    second: &StreamCipherPipeline<C>,
)
    requires
        first.wf(),
        second.wf(),
        first.cipher() == second.cipher(),
        first.mode() == second.mode(),
        first.chunk_size() == second.chunk_size(),
        first.consumed() == second.consumed(),
        first.stage() == Stage::Streaming && second.stage() == Stage::Streaming
            || first.ended_well() && second.ended_well(),
    ensures
        first.emitted() == second.emitted(),
        first.buffered() == second.buffered(),
{
    first.lemma_output();
    second.lemma_output();
    first.lemma_buffered();
    second.lemma_buffered();
}

/// Whether a stream of ciphertext ends well or fails for its content does not
/// depend on the fragments or on the chunk size either: of two decrypting
/// pipelines with the same cipher that have taken in the same bytes, one cannot
/// have ended well where the other found the ciphertext truncated or wrongly
/// padded, and where both found fault with it they found the same.
pub proof fn lemma_same_input_same_end<C: BlockCipher>(
    first: &StreamCipherPipeline<C>,
    second: &StreamCipherPipeline<C>,
)
    requires
        first.wf(),
        second.wf(),
        first.cipher() == second.cipher(),
        first.mode() == second.mode(),
        first.consumed() == second.consumed(),
        second.fault() == Some(CryptoError::TruncatedCiphertext) || second.fault() == Some(
            CryptoError::InvalidPadding,
        ),
    ensures
        !first.ended_well(),
        first.fault() == Some(CryptoError::TruncatedCiphertext) || first.fault() == Some(
            CryptoError::InvalidPadding,
        ) ==> first.fault() == second.fault(),
{
    first.lemma_output();
    first.lemma_fault();
    second.lemma_fault();
}

/// Block locality: each block of the output is the transform of the block of
/// the input at the same place, whatever stands before or after it.
pub proof fn lemma_block_local<C: BlockCipher>(
    cipher: &C,
    mode: Mode,
    data: Seq<u8>,
    offset: nat,
)
    requires
        offset % C::spec_block_size() == 0,
        offset + C::spec_block_size() <= data.len(),
    ensures
        offset + C::spec_block_size() <= transform_blocks(cipher, mode, data).len(),
        transform_blocks(cipher, mode, data).subrange(
            offset as int,
            (offset + C::spec_block_size()) as int,
        ) == transform_block(
            cipher,
            mode,
            data.subrange(offset as int, (offset + C::spec_block_size()) as int),
        ),
{
    C::lemma_block_size();
    let size = C::spec_block_size();
    let head = data.take(offset as int);
    let block = data.subrange(offset as int, (offset + size) as int);
    let tail = data.skip((offset + size) as int);
    assert(data =~= head + (block + tail));
    lemma_transform_blocks_concat(cipher, mode, head, block + tail);
    lemma_transform_blocks_concat(cipher, mode, block, tail);
    lemma_transform_blocks_len(cipher, mode, head);
    lemma_single_block(cipher, mode, block);
    cipher.lemma_block_len(block);
}

/// The last block of a decrypted stream is the decryption of the last block of
/// the ciphertext.
pub proof fn lemma_last_block<C: BlockCipher>(cipher: &C, ciphertext: Seq<u8>)
    requires
        ciphertext.len() % C::spec_block_size() == 0,
        ciphertext.len() > 0,
    ensures
        ciphertext.len() >= C::spec_block_size(),
        decrypt_blocks(cipher, ciphertext).len() == ciphertext.len(),
        decrypt_blocks(cipher, ciphertext).skip(ciphertext.len() - C::spec_block_size())
            == cipher.decrypt_spec(ciphertext.skip(ciphertext.len() - C::spec_block_size())),
{
    C::lemma_block_size();
    let size = C::spec_block_size();
    lemma_whole_blocks_step(ciphertext.len(), size);
    let front = ciphertext.take(ciphertext.len() - size);
    let back = ciphertext.skip(ciphertext.len() - size);
    assert(ciphertext =~= front + back);
    lemma_transform_blocks_concat(cipher, Mode::Decrypt, front, back);
    lemma_transform_blocks_len(cipher, Mode::Decrypt, front);
    lemma_transform_blocks_len(cipher, Mode::Decrypt, ciphertext);
    lemma_single_block(cipher, Mode::Decrypt, back);
}

/// Padding rejection: a ciphertext of whole blocks has a plaintext exactly when
/// its last block decrypts to well-formed padding. Where the last byte of that
/// block is zero or more than the block size, or one of the bytes it announces
/// as padding differs from it, the ciphertext is refused for its padding; no
/// plaintext comes out.
pub proof fn lemma_padding_rejection<C: BlockCipher>(cipher: &C, ciphertext: Seq<u8>)
    requires
        ciphertext.len() % C::spec_block_size() == 0,
        ciphertext.len() > 0,
    ensures
        ({
            let size = C::spec_block_size();
            let last = cipher.decrypt_spec(ciphertext.skip(ciphertext.len() - size));
            &&& last.len() == size
            &&& decrypted(cipher, ciphertext) is Ok <==> valid_padding(last)
            &&& !valid_padding(last) ==> decrypted(cipher, ciphertext) == Err::<
                Seq<u8>,
                CryptoError,
            >(CryptoError::InvalidPadding)
            &&& last.last() == 0 || last.last() > size ==> !valid_padding(last)
            &&& (exists|i: int| size - last.last() <= i < size && last[i] != last.last())
                ==> !valid_padding(last)
        }),
{
    C::lemma_block_size();
    let size = C::spec_block_size();
    lemma_last_block(cipher, ciphertext);
    lemma_whole_blocks_step(ciphertext.len(), size);
    cipher.lemma_block_len(ciphertext.skip(ciphertext.len() - size));
}

/// The plaintext is the decrypted ciphertext without its padding: it is shorter
/// than the ciphertext by the pad length, which the last decrypted byte holds
/// and which lies between one byte and one block.
pub proof fn lemma_plaintext_len<C: BlockCipher>(cipher: &C, ciphertext: Seq<u8>)
    requires
        decrypted(cipher, ciphertext) is Ok,
    ensures
        ({
            let plain = decrypted(cipher, ciphertext)->Ok_0;
            let all = decrypt_blocks(cipher, ciphertext);
            &&& all.len() == ciphertext.len()
            &&& 1 <= all.last() <= C::spec_block_size()
            &&& plain.len() + all.last() == ciphertext.len()
            &&& plain == all.take(plain.len() as int)
        }),
{
    C::lemma_block_size();
    let size = C::spec_block_size();
    let all = decrypt_blocks(cipher, ciphertext);
    lemma_transform_blocks_len(cipher, Mode::Decrypt, ciphertext);
    let last = all.skip(all.len() - size);
}

/// Truncation rejection: a ciphertext that is not a whole number of blocks is
/// refused as truncated, whatever it holds.
pub proof fn lemma_truncation_rejection<C: BlockCipher>(cipher: &C, ciphertext: Seq<u8>)
    requires
        ciphertext.len() % C::spec_block_size() != 0,
    ensures
        decrypted(cipher, ciphertext) == Err::<Seq<u8>, CryptoError>(
            CryptoError::TruncatedCiphertext,
        ),
{
}

/// Bounded memory: in every state that its operations lead to, a pipeline holds
/// at most one chunk and one block of its stream, however long the stream.
pub proof fn lemma_bounded_memory<C: BlockCipher>(pipeline: &StreamCipherPipeline<C>)
    requires
        pipeline.wf(),
    ensures
        pipeline.buffered() <= pipeline.chunk_size() + C::spec_block_size(),
        pipeline.stage() == Stage::Streaming ==> pipeline.buffered() < pipeline.chunk_size()
            + C::spec_block_size(),
{
    pipeline.lemma_bounded();
}

} // verus!
