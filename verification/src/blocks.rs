//! Work on the whole blocks that a pipeline holds: the cipher pass over a staged
//! chunk, the block that is withheld, and the final block with its padding.

use crate::buffer::{copy_bytes, ChunkBuffer};
use crate::cipher::BlockCipher;
use crate::error::CryptoError;
use crate::model::{
    decrypt_blocks, encrypted, lemma_encrypted_split, lemma_single_block,
    lemma_transform_blocks_concat, lemma_transform_blocks_len, lemma_whole_blocks_add,
    lemma_whole_blocks_step, strip_padding, transform_block, transform_blocks, Mode,
};
use crate::padding::{lemma_padded_len, PaddingCodec};
use vstd::prelude::*;

verus! {

/// Transforms one block in place, in the direction of `mode`.
pub fn apply_block<C: BlockCipher>(cipher: &C, mode: Mode, block: &mut Vec<u8>)
    requires
        old(block)@.len() == C::spec_block_size(),
    ensures
        final(block)@ == transform_block(cipher, mode, old(block)@),
{
    match mode {
        Mode::Encrypt => cipher.encrypt_block(block),
        Mode::Decrypt => cipher.decrypt_block(block),
    }
}

/// Runs the cipher over every block staged in `buffer`, in place.
pub fn cipher_pass<C: BlockCipher>(cipher: &C, mode: Mode, buffer: &mut ChunkBuffer)
    requires
        old(buffer).wf(),
        old(buffer)@.len() % C::spec_block_size() == 0,
    ensures
        final(buffer).wf(),
        final(buffer).spec_capacity() == old(buffer).spec_capacity(),
        final(buffer)@ == transform_blocks(cipher, mode, old(buffer)@),
        final(buffer)@.len() == old(buffer)@.len(),
{
    proof {
        C::lemma_block_size();
    }
    let size: usize = C::block_size();
    let len: usize = buffer.len();
    let mut offset: usize = 0;
    assert(buffer@.skip(0) =~= buffer@);
    while offset < len
        invariant
            buffer.wf(),
            buffer.spec_capacity() == old(buffer).spec_capacity(),
            size == C::spec_block_size(),
            1 <= size,
            len == old(buffer)@.len(),
            buffer@.len() == len,
            offset <= len,
            offset as nat % (size as nat) == 0,
            len as nat % (size as nat) == 0,
            buffer@ == transform_blocks(cipher, mode, old(buffer)@.take(offset as int)) + old(
                buffer,
            )@.skip(offset as int),
        decreases len - offset,
    {
        proof {
            lemma_whole_blocks_add(offset as nat, (len - offset) as nat, size as nat);
            lemma_whole_blocks_step((len - offset) as nat, size as nat);
            lemma_transform_blocks_len(cipher, mode, old(buffer)@.take(offset as int));
        }
        let mut block = buffer.copy_out(offset, size);
        let ghost raw = block@;
        apply_block(cipher, mode, &mut block);
        proof {
            cipher.lemma_block_len(raw);
        }
        buffer.overwrite(offset, block.as_slice());
        proof {
            let source = old(buffer)@;
            let head = source.take(offset as int);
            assert(source.take(offset + size) =~= head + raw);
            lemma_transform_blocks_concat(cipher, mode, head, raw);
            lemma_single_block(cipher, mode, raw);
            lemma_whole_blocks_add(offset as nat, size as nat, size as nat);
        }
        offset = offset + size;
    }
}

/// What the withheld block holds for the raw block `raw` of the input: the block
/// itself while encrypting, its plaintext while decrypting.
pub open spec fn withheld<C: BlockCipher>(cipher: &C, mode: Mode, raw: Seq<u8>) -> Seq<u8> {
    match mode {
        Mode::Encrypt => raw,
        Mode::Decrypt => cipher.decrypt_spec(raw),
    }
}

/// What is written for a withheld block once it is known not to be the final
/// one: its ciphertext while encrypting, the block as it stands while
/// decrypting.
pub open spec fn written_for<C: BlockCipher>(cipher: &C, mode: Mode, held: Seq<u8>) -> Seq<u8> {
    match mode {
        Mode::Encrypt => cipher.encrypt_spec(held),
        Mode::Decrypt => held,
    }
}

/// The bytes of the withheld block, none where no block is withheld.
pub open spec fn pending_bytes(pending: Option<Vec<u8>>) -> Seq<u8> {
    match pending {
        Some(block) => block@,
        None => Seq::empty(),
    }
}

/// Writes the withheld block, which more input has shown not to be the final
/// one, and withholds nothing.
pub fn emit_pending<C: BlockCipher>(
    cipher: &C,
    mode: Mode,
    pending: &mut Option<Vec<u8>>,
    sink: &mut Vec<u8>,
)
    requires
        *old(pending) matches Some(block) ==> block@.len() == C::spec_block_size(),
    ensures
        *final(pending) == None::<Vec<u8>>,
        final(sink)@ == old(sink)@ + (match *old(pending) {
            Some(block) => written_for(cipher, mode, block@),
            None => Seq::empty(),
        }),
{
    let taken = pending.take();
    match taken {
        Some(mut block) => {
            match mode {
                Mode::Encrypt => cipher.encrypt_block(&mut block),
                Mode::Decrypt => {},
            }
            copy_bytes(block.as_slice(), sink);
        },
        None => {},
    }
}

/// Works on a staged run of whole blocks: writes the block withheld before, then
/// every staged block but the last, and withholds the last.
pub fn release_blocks<C: BlockCipher>(
    cipher: &C,
    mode: Mode,
    staged: &mut ChunkBuffer,
    pending: &mut Option<Vec<u8>>,
    sink: &mut Vec<u8>,
)
    requires
        old(staged).wf(),
        old(staged)@.len() % C::spec_block_size() == 0,
        old(staged)@.len() >= C::spec_block_size(),
        *old(pending) matches Some(block) ==> block@.len() == C::spec_block_size(),
    ensures
        final(staged).wf(),
        final(staged).spec_capacity() == old(staged).spec_capacity(),
        final(staged)@ == Seq::<u8>::empty(),
        *final(pending) matches Some(block) && block@ == withheld(
            cipher,
            mode,
            old(staged)@.skip(old(staged)@.len() - C::spec_block_size()),
        ),
        final(sink)@ == old(sink)@ + (match *old(pending) {
            Some(block) => written_for(cipher, mode, block@),
            None => Seq::empty(),
        }) + transform_blocks(
            cipher,
            mode,
            old(staged)@.take(old(staged)@.len() - C::spec_block_size()),
        ),
{
    proof {
        C::lemma_block_size();
    }
    let size: usize = C::block_size();
    let ghost raw = staged@;
    let ghost front = raw.take(raw.len() - size);
    let ghost back = raw.skip(raw.len() - size);
    proof {
        lemma_whole_blocks_step(raw.len(), size as nat);
        assert(raw =~= front + back);
    }
    emit_pending(cipher, mode, pending, sink);
    match mode {
        Mode::Encrypt => {
            let last = staged.split_last(size);
            cipher_pass(cipher, mode, staged);
            *pending = Some(last);
        },
        Mode::Decrypt => {
            cipher_pass(cipher, mode, staged);
            let last = staged.split_last(size);
            proof {
                lemma_transform_blocks_concat(cipher, mode, front, back);
                lemma_transform_blocks_len(cipher, mode, front);
                lemma_single_block(cipher, mode, back);
            }
            *pending = Some(last);
        },
    }
    staged.flush(sink);
}

/// Ends an encrypted stream: writes the ciphertext of what is still held, the
/// withheld block and the staged bytes, padding included.
pub fn seal_tail<C: BlockCipher>(
    cipher: &C,
    codec: &PaddingCodec,
    staged: &mut ChunkBuffer,
    pending: &mut Option<Vec<u8>>,
    sink: &mut Vec<u8>,
)
    requires
        old(staged).wf(),
        codec.spec_block_size() == C::spec_block_size(),
        *old(pending) matches Some(block) ==> block@.len() == C::spec_block_size(),
    ensures
        final(staged).wf(),
        final(staged).spec_capacity() == old(staged).spec_capacity(),
        final(staged)@ == Seq::<u8>::empty(),
        *final(pending) == None::<Vec<u8>>,
        final(sink)@ == old(sink)@ + encrypted(
            cipher,
            pending_bytes(*old(pending)) + old(staged)@,
        ),
{
    proof {
        C::lemma_block_size();
    }
    let size: usize = C::block_size();
    let ghost held = pending_bytes(*pending);
    let ghost raw = staged@;
    let staged_len: usize = staged.len();
    let tail_len: usize = staged_len % size;
    let ghost whole = (staged_len - tail_len) as int;
    proof {
        lemma_whole_part(staged_len as nat, size as nat);
    }
    let mut tail = staged.split_last(tail_len);
    let ghost tail_raw = tail@;
    emit_pending(cipher, Mode::Encrypt, pending, sink);
    cipher_pass(cipher, Mode::Encrypt, staged);
    staged.flush(sink);
    codec.pad(&mut tail);
    let ghost tail_padded = tail@;
    proof {
        lemma_padded_len(tail_len as nat, size as nat);
        vstd::arithmetic::div_mod::lemma_small_mod(tail_len as nat, size as nat);
    }
    cipher.encrypt_block(&mut tail);
    copy_bytes(tail.as_slice(), sink);
    proof {
        let mode = Mode::Encrypt;
        let body = raw.take(whole);
        assert(held + raw =~= (held + body) + tail_raw);
        lemma_whole_blocks_add(held.len(), body.len(), size as nat);
        lemma_encrypted_split(cipher, held + body, tail_raw);
        lemma_transform_blocks_concat(cipher, mode, held, body);
        lemma_single_block(cipher, mode, tail_padded);
        if held.len() > 0 {
            lemma_single_block(cipher, mode, held);
        }
    }
}

/// Ends a decrypted stream: decrypts what is still staged, checks the padding of
/// the last block, and writes the plaintext that is left.
///
/// Nothing is written where the staged bytes are not whole blocks or the
/// padding is not well formed.
pub fn open_tail<C: BlockCipher>(
    cipher: &C,
    codec: &PaddingCodec,
    staged: &mut ChunkBuffer,
    pending: &mut Option<Vec<u8>>,
    sink: &mut Vec<u8>,
) -> (result: Result<(), CryptoError>)
    requires
        old(staged).wf(),
        codec.spec_block_size() == C::spec_block_size(),
        *old(pending) matches Some(block) ==> block@.len() == C::spec_block_size(),
    ensures
        final(staged).wf(),
        final(staged).spec_capacity() == old(staged).spec_capacity(),
        final(staged)@ == Seq::<u8>::empty(),
        *final(pending) == None::<Vec<u8>>,
        old(staged)@.len() % C::spec_block_size() != 0 ==> result == Err::<(), CryptoError>(
            CryptoError::TruncatedCiphertext,
        ) && final(sink)@ == old(sink)@,
        old(staged)@.len() % C::spec_block_size() == 0 ==> (match strip_padding(
            pending_bytes(*old(pending)) + decrypt_blocks(cipher, old(staged)@),
            C::spec_block_size(),
        ) {
            Ok(rest) => result is Ok && final(sink)@ == old(sink)@ + rest,
            Err(e) => result == Err::<(), CryptoError>(e) && final(sink)@ == old(sink)@,
        }),
{
    proof {
        C::lemma_block_size();
    }
    let size: usize = C::block_size();
    let ghost held = pending_bytes(*pending);
    let ghost raw = staged@;
    let staged_len: usize = staged.len();
    if staged_len % size != 0 {
        staged.clear();
        *pending = None;
        return Err(CryptoError::TruncatedCiphertext);
    }
    cipher_pass(cipher, Mode::Decrypt, staged);
    let ghost plain = held + staged@;
    let mut last: Vec<u8>;
    if staged_len == 0 {
        match pending.take() {
            None => {
                return Err(CryptoError::InvalidPadding);
            },
            Some(block) => {
                last = block;
            },
        }
        proof {
            assert(plain.skip(plain.len() - size) =~= last@);
        }
    } else {
        proof {
            lemma_whole_blocks_step(staged_len as nat, size as nat);
        }
        last = staged.split_last(size);
        proof {
            assert(plain.skip(plain.len() - size) =~= last@);
        }
    }
    match codec.unpad(last.as_slice()) {
        Err(_) => {
            staged.clear();
            *pending = None;
            Err(CryptoError::InvalidPadding)
        },
        Ok(used) => {
            emit_pending(cipher, Mode::Decrypt, pending, sink);
            staged.flush(sink);
            last.truncate(used);
            copy_bytes(last.as_slice(), sink);
            Ok(())
        },
    }
}

/// The bytes before the last partial block of a run are a whole number of
/// blocks.
pub proof fn lemma_whole_part(len: nat, block: nat)
    requires
        block >= 1,
    ensures
        len % block < block,
        len % block <= len,
        (len - len % block) % (block as int) == 0,
{
    vstd::arithmetic::div_mod::lemma_fundamental_div_mod(len as int, block as int);
    vstd::arithmetic::div_mod::lemma_mod_multiples_basic((len / block) as int, block as int);
    assert(block * (len / block) == (len / block) * block) by (nonlinear_arith);
    assert(0 <= block * (len / block)) by (nonlinear_arith)
        requires
            block >= 1,
            len >= 0,
    ;
}

} // verus!
