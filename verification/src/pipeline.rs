//! The streaming pipeline: a state machine that turns the fragments of a stream
//! into its output, holding no more than one chunk and one block at a time.
//!
//! The pipeline does no input or output of its own. Its caller reads from a
//! source, hands each fragment to [`StreamCipherPipeline::feed`], and writes what
//! the pipeline appended to the sink buffer. When the source is used up the
//! caller calls [`StreamCipherPipeline::finish`], writes the last of the output,
//! and calls [`StreamCipherPipeline::close`]. A failure of the source or the
//! sink is reported to the pipeline, which then accepts nothing more.

use crate::blocks::{
    open_tail, pending_bytes, release_blocks, seal_tail, withheld, written_for,
};
use crate::buffer::ChunkBuffer;
use crate::cipher::BlockCipher;
use crate::error::CryptoError;
use crate::model::{
    decrypt_blocks, decrypted, encrypted, lemma_encrypted_split, lemma_single_block,
    lemma_strip_split, lemma_transform_blocks_concat, lemma_transform_blocks_len,
    lemma_whole_blocks_add, lemma_whole_blocks_step, released_len, released_output,
    stream_output, transform_block, transform_blocks, Mode,
};
use crate::padding::PaddingCodec;
use vstd::prelude::*;
use vstd::slice::slice_subrange;

verus! {

/// Where a pipeline stands in the life of its stream.
#[derive(Clone, Copy, Debug, PartialEq, Eq, Structural)]
pub enum Stage {
    /// Input is accepted.
    Streaming,
    /// The end of the input has been announced and the last of the output has
    /// been handed over; whether it reaches the sink is not known yet.
    Finalizing,
    /// The stream has ended, with its whole output written or with a failure.
    Done,
}

/// Whether a stream can be worked on in chunks of `chunk` bytes: a chunk is one
/// or more whole blocks, and one chunk and one block together can still be
/// counted.
pub open spec fn valid_chunk_size(chunk: nat, block: nat) -> bool {
    &&& chunk >= block
    &&& chunk % block == 0
    &&& chunk + block <= usize::MAX
}

/// The transform of the input up to the last block of a chunk is the transform
/// of the input before the chunk, then that of the chunk without its last block.
proof fn lemma_release_step<C: BlockCipher>(
    cipher: &C,
    mode: Mode,
    input: Seq<u8>,
    worked: nat,
    chunk: nat,
)
    requires
        worked % C::spec_block_size() == 0,
        chunk >= C::spec_block_size(),
        worked + chunk <= input.len(),
    ensures
        transform_blocks(cipher, mode, input.take(worked + chunk - C::spec_block_size()))
            == transform_blocks(cipher, mode, input.take(worked as int)) + transform_blocks(
            cipher,
            mode,
            input.subrange(worked as int, worked + chunk - C::spec_block_size()),
        ),
{
    let size = C::spec_block_size();
    let head = input.take(worked as int);
    let body = input.subrange(worked as int, worked + chunk - size);
    assert(input.take(worked + chunk - size) =~= head + body);
    lemma_transform_blocks_concat(cipher, mode, head, body);
}

/// The transform of the input that has left the staging buffer is what was
/// written before the withheld block, then the transform of that block.
proof fn lemma_worked_prefix<C: BlockCipher>(cipher: &C, mode: Mode, input: Seq<u8>, worked: nat)
    requires
        worked % C::spec_block_size() == 0,
        worked <= input.len(),
    ensures
        transform_blocks(cipher, mode, input.take(worked as int)).len() == worked,
        worked > 0 ==> worked >= C::spec_block_size() && transform_blocks(
            cipher,
            mode,
            input.take(worked as int),
        ) == transform_blocks(cipher, mode, input.take(worked - C::spec_block_size()))
            + transform_block(
            cipher,
            mode,
            input.subrange(worked - C::spec_block_size(), worked as int),
        ),
        worked == 0 ==> transform_blocks(cipher, mode, input.take(worked as int)) == Seq::<
            u8,
        >::empty(),
{
    C::lemma_block_size();
    let size = C::spec_block_size();
    let head = input.take(worked as int);
    lemma_transform_blocks_len(cipher, mode, head);
    lemma_whole_blocks_step(worked, size);
    if worked > 0 {
        let front = input.take(worked - size);
        let block = input.subrange(worked - size, worked as int);
        assert(head =~= front + block);
        lemma_transform_blocks_concat(cipher, mode, front, block);
        lemma_single_block(cipher, mode, block);
    }
}

/// A stream on its way through the cipher.
///
/// The pipeline stages input in a buffer of one chunk. Each time the buffer is
/// full it runs the cipher over the chunk and writes the result, but for the last
/// block of the chunk: that one is withheld, because it may turn out to be the
/// final block of the stream, which carries the padding. The withheld block is
/// written when the next chunk is worked on, or finished off when the stream
/// ends.
pub struct StreamCipherPipeline<'a, C: BlockCipher> {
    cipher: &'a C,
    mode: Mode,
    codec: PaddingCodec,
    staged: ChunkBuffer,
    pending: Option<Vec<u8>>,
    stage: Stage,
    fault: Option<CryptoError>,
    consumed: Ghost<Seq<u8>>,
    emitted: Ghost<Seq<u8>>,
}

impl<'a, C: BlockCipher> StreamCipherPipeline<'a, C> {
    /// The cipher that the pipeline drives.
    pub closed spec fn cipher(&self) -> &C {
        self.cipher
    }

    /// The direction of the pipeline.
    pub closed spec fn mode(&self) -> Mode {
        self.mode
    }

    /// The chunk size that the pipeline was created with.
    pub closed spec fn chunk_size(&self) -> nat {
        self.staged.spec_capacity()
    }

    /// The stage of the pipeline.
    pub closed spec fn stage(&self) -> Stage {
        self.stage
    }

    /// The failure that ended the stream, if one did.
    pub closed spec fn fault(&self) -> Option<CryptoError> {
        self.fault
    }

    /// Every byte of input accepted so far, in order.
    pub closed spec fn consumed(&self) -> Seq<u8> {
        self.consumed@
    }

    /// Every byte of output written so far, in order.
    pub closed spec fn emitted(&self) -> Seq<u8> {
        self.emitted@
    }

    /// The number of bytes of the stream that the pipeline holds: the staged
    /// bytes and the withheld block.
    pub closed spec fn buffered(&self) -> nat {
        self.staged@.len() + pending_bytes(self.pending).len()
    }

    /// The parts of the pipeline fit together, whatever the stage.
    spec fn structure(&self) -> bool {
        &&& self.codec.spec_block_size() == C::spec_block_size()
        &&& self.staged.wf()
        &&& valid_chunk_size(self.staged.spec_capacity(), C::spec_block_size())
    }

    /// The buffers and the record of the output agree with the input, of which
    /// the first `worked` bytes have left the staging buffer.
    spec fn tracks(&self, worked: nat) -> bool {
        let size = C::spec_block_size();
        &&& worked + self.staged@.len() == self.consumed@.len()
        &&& self.staged@ == self.consumed@.skip(worked as int)
        &&& worked % size == 0
        &&& if worked == 0 {
            &&& self.pending is None
            &&& self.emitted@ == Seq::<u8>::empty()
        } else {
            &&& worked >= size
            &&& self.pending matches Some(block)
            &&& block@ == withheld(
                self.cipher,
                self.mode,
                self.consumed@.subrange(worked - size, worked as int),
            )
            &&& self.emitted@ == transform_blocks(
                self.cipher,
                self.mode,
                self.consumed@.take(worked - size),
            )
        }
    }

    /// The number of input bytes that have left the staging buffer.
    spec fn worked(&self) -> nat {
        (self.consumed@.len() - self.staged@.len()) as nat
    }

    /// The pipeline is in a state that its own operations lead to.
    pub closed spec fn wf(&self) -> bool {
        &&& self.structure()
        &&& match self.stage {
            Stage::Streaming => {
                &&& self.fault is None
                &&& self.staged@.len() < self.staged.spec_capacity()
                &&& self.worked() % self.staged.spec_capacity() == 0
                &&& self.tracks(self.worked())
            },
            Stage::Finalizing => {
                &&& self.fault is None
                &&& self.staged@.len() == 0
                &&& self.pending is None
                &&& self.whole_output_written()
            },
            Stage::Done => {
                &&& self.staged@.len() == 0
                &&& self.pending is None
                &&& match self.fault {
                    None => self.whole_output_written(),
                    Some(e) => {
                        ||| self.released_written() && stream_output(
                            self.cipher,
                            self.mode,
                            self.consumed@,
                        ) == Err::<Seq<u8>, CryptoError>(e)
                        ||| self.released_written() && e == CryptoError::SourceReadError
                        ||| (self.released_written() || self.whole_output_written()) && e
                            == CryptoError::SinkWriteError
                    },
                }
            },
        }
    }

    /// What has been written is the whole output of the input.
    spec fn whole_output_written(&self) -> bool {
        stream_output(self.cipher, self.mode, self.consumed@) == Ok::<Seq<u8>, CryptoError>(
            self.emitted@,
        )
    }

    /// What has been written is what the input releases while the stream is
    /// open.
    spec fn released_written(&self) -> bool {
        self.emitted@ == released_output(
            self.cipher,
            self.mode,
            self.consumed@,
            self.staged.spec_capacity(),
        )
    }

    /// The stream has come to its end without a failure: the whole output has
    /// been handed over, and no failure of the sink has been reported.
    pub open spec fn ended_well(&self) -> bool {
        ||| self.stage() == Stage::Finalizing
        ||| self.stage() == Stage::Done && self.fault() == None::<CryptoError>
    }

    /// Creates a pipeline in the direction of `mode` that works in chunks of
    /// `chunk_size` bytes.
    ///
    /// A chunk size that is not valid for the cipher is refused before a byte is
    /// read.
    pub fn new(cipher: &'a C, mode: Mode, chunk_size: usize) -> (pipeline: Result<
        Self,
        CryptoError,
    >)
        ensures
            pipeline is Ok <==> valid_chunk_size(chunk_size as nat, C::spec_block_size()),
            pipeline matches Ok(p) ==> {
                &&& p.wf()
                &&& p.cipher() == cipher
                &&& p.mode() == mode
                &&& p.chunk_size() == chunk_size
                &&& p.stage() == Stage::Streaming
                &&& p.fault() == None::<CryptoError>
                &&& p.consumed() == Seq::<u8>::empty()
                &&& p.emitted() == Seq::<u8>::empty()
                &&& p.buffered() == 0
            },
            pipeline matches Err(e) ==> e == CryptoError::InvalidState,
    {
        proof {
            C::lemma_block_size();
        }
        let size: usize = C::block_size();
        if chunk_size < size || chunk_size % size != 0 || chunk_size > usize::MAX - size {
            return Err(CryptoError::InvalidState);
        }
        let codec = PaddingCodec::new(size).unwrap();
        let pipeline = StreamCipherPipeline {
            cipher,
            mode,
            codec,
            staged: ChunkBuffer::new(chunk_size),
            pending: None,
            stage: Stage::Streaming,
            fault: None,
            consumed: Ghost(Seq::empty()),
            emitted: Ghost(Seq::empty()),
        };
        proof {
            assert(pipeline.staged@ =~= pipeline.consumed@.skip(0));
        }
        Ok(pipeline)
    }

    /// Returns the stage of the pipeline.
    pub fn current_stage(&self) -> (stage: Stage)
        ensures
            stage == self.stage(),
    {
        self.stage
    }

    /// Returns the failure that ended the stream, if one did.
    pub fn failure(&self) -> (fault: Option<CryptoError>)
        ensures
            fault == self.fault(),
    {
        self.fault
    }

    /// Returns the chunk size that the pipeline was created with.
    pub fn chunk_len(&self) -> (size: usize)
        ensures
            size == self.chunk_size(),
    {
        self.staged.capacity()
    }

    /// Returns the number of bytes of the stream that the pipeline holds at this
    /// moment. It never exceeds one chunk and one block.
    pub fn buffered_len(&self) -> (held: usize)
        requires
            self.wf(),
        ensures
            held == self.buffered(),
            held <= self.chunk_size() + C::spec_block_size(),
    {
        proof {
            self.lemma_bounded();
        }
        let staged: usize = self.staged.len();
        match &self.pending {
            Some(block) => staged + block.len(),
            None => staged,
        }
    }

    /// Accepts the next fragment of the input and appends to `sink` the output
    /// that this fragment completes.
    ///
    /// The fragment may have any length. What has been written after the call
    /// depends only on the bytes accepted so far and on the chunk size, not on
    /// how the bytes were cut into fragments.
    pub fn feed(&mut self, input: &[u8], sink: &mut Vec<u8>) -> (result: Result<(), CryptoError>)
        requires
            old(self).wf(),
        ensures
            final(self).wf(),
            final(self).cipher() == old(self).cipher(),
            final(self).mode() == old(self).mode(),
            final(self).chunk_size() == old(self).chunk_size(),
            old(self).stage() == Stage::Streaming ==> {
                &&& result is Ok
                &&& final(self).stage() == Stage::Streaming
                &&& final(self).fault() == None::<CryptoError>
                &&& final(self).consumed() == old(self).consumed() + input@
                &&& final(self).emitted() == released_output(
                    final(self).cipher(),
                    final(self).mode(),
                    final(self).consumed(),
                    final(self).chunk_size(),
                )
                &&& old(self).emitted().is_prefix_of(final(self).emitted())
                &&& final(sink)@ == old(sink)@ + final(self).emitted().skip(
                    old(self).emitted().len() as int,
                )
            },
            old(self).stage() != Stage::Streaming ==> {
                &&& result == Err::<(), CryptoError>(CryptoError::InvalidState)
                &&& *final(self) == *old(self)
                &&& final(sink)@ == old(sink)@
            },
    {
        match self.stage {
            Stage::Streaming => {},
            _ => {
                return Err(CryptoError::InvalidState);
            },
        }
        let ghost start = self.emitted@.len() as int;
        proof {
            C::lemma_block_size();
        }
        let mut pos: usize = 0;
        while pos < input.len()
            invariant
                self.wf(),
                self.stage == Stage::Streaming,
                self.cipher == old(self).cipher,
                self.mode == old(self).mode,
                self.staged.spec_capacity() == old(self).staged.spec_capacity(),
                pos <= input@.len(),
                self.consumed@ == old(self).consumed@ + input@.take(pos as int),
                start == old(self).emitted@.len(),
                old(self).emitted@.is_prefix_of(self.emitted@),
                sink@ == old(sink)@ + self.emitted@.skip(start),
            decreases input@.len() - pos,
        {
            let ghost before = *self;
            let ghost worked = self.worked();
            let ghost size = C::spec_block_size();
            let ghost chunk = self.staged.spec_capacity();
            let rest = slice_subrange(input, pos, input.len());
            let taken = self.staged.fill(rest);
            let ghost part = rest@.take(taken as int);
            proof {
                self.consumed@ = self.consumed@ + part;
                C::lemma_block_size();
                assert(self.consumed@ =~= old(self).consumed@ + input@.take(pos + taken));
                assert(self.consumed@.skip(worked as int) =~= before.consumed@.skip(
                    worked as int,
                ) + part);
                if worked > 0 {
                    assert(self.consumed@.subrange(worked - size, worked as int)
                        =~= before.consumed@.subrange(worked - size, worked as int));
                    assert(self.consumed@.take(worked - size) =~= before.consumed@.take(
                        worked - size,
                    ));
                }
            }
            pos = pos + taken;
            if self.staged.is_full() {
                let ghost raw = self.staged@;
                let ghost old_pending = self.pending;
                proof {
                    if worked > 0 {
                        self.cipher.lemma_block_len(
                            self.consumed@.subrange(worked - size, worked as int),
                        );
                    }
                }
                release_blocks(self.cipher, self.mode, &mut self.staged, &mut self.pending, sink);
                proof {
                    let total = self.consumed@;
                    let written = (match old_pending {
                        Some(block) => written_for(self.cipher, self.mode, block@),
                        None => Seq::empty(),
                    }) + transform_blocks(self.cipher, self.mode, raw.take(chunk - size));
                    let earlier = self.emitted@;
                    self.emitted@ = earlier + written;
                    lemma_release_step(self.cipher, self.mode, total, worked, chunk);
                    lemma_worked_prefix(self.cipher, self.mode, total, worked);
                    assert(raw.take(chunk - size) =~= total.subrange(
                        worked as int,
                        worked + chunk - size,
                    ));
                    assert(raw.skip(chunk - size) =~= total.subrange(
                        worked + chunk - size,
                        (worked + chunk) as int,
                    ));
                    assert(self.staged@ =~= total.skip((worked + chunk) as int));
                    lemma_whole_blocks_add(worked, chunk, size);
                    lemma_whole_blocks_add(worked, chunk, chunk);
                    vstd::arithmetic::div_mod::lemma_mod_self_0(chunk as int);
                    assert(self.emitted@ =~= transform_blocks(
                        self.cipher,
                        self.mode,
                        total.take(worked + chunk - size),
                    ));
                }
            }
        }
        proof {
            self.lemma_released();
        }
        Ok(())
    }

    /// Announces the end of the input and appends to `sink` the rest of the
    /// output.
    ///
    /// While encrypting, the bytes still held are padded, encrypted and written.
    /// While decrypting, the last block is checked: an input that is not a whole
    /// number of blocks is truncated, and one that is empty or whose last block
    /// does not end in well-formed padding has invalid padding. On either failure
    /// nothing is written by this call and the stream has ended; what earlier
    /// calls wrote stays written.
    ///
    /// After a call that succeeds the pipeline waits to be told how the last
    /// write went: [`Self::close`] where it went well, [`Self::sink_failed`]
    /// where it did not.
    pub fn finish(&mut self, sink: &mut Vec<u8>) -> (result: Result<(), CryptoError>)
        requires
            old(self).wf(),
        ensures
            final(self).wf(),
            final(self).cipher() == old(self).cipher(),
            final(self).mode() == old(self).mode(),
            final(self).chunk_size() == old(self).chunk_size(),
            final(self).consumed() == old(self).consumed(),
            old(self).stage() == Stage::Streaming ==> {
                &&& final(self).buffered() == 0
                &&& match stream_output(
                    old(self).cipher(),
                    old(self).mode(),
                    old(self).consumed(),
                ) {
                    Ok(output) => {
                        &&& result is Ok
                        &&& final(self).stage() == Stage::Finalizing
                        &&& final(self).fault() == None::<CryptoError>
                        &&& final(self).emitted() == output
                        &&& old(self).emitted().is_prefix_of(output)
                        &&& final(sink)@ == old(sink)@ + output.skip(
                            old(self).emitted().len() as int,
                        )
                    },
                    Err(e) => {
                        &&& result == Err::<(), CryptoError>(e)
                        &&& final(self).stage() == Stage::Done
                        &&& final(self).fault() == Some(e)
                        &&& final(self).emitted() == old(self).emitted()
                        &&& final(sink)@ == old(sink)@
                    },
                }
            },
            old(self).stage() != Stage::Streaming ==> {
                &&& result == Err::<(), CryptoError>(CryptoError::InvalidState)
                &&& *final(self) == *old(self)
                &&& final(sink)@ == old(sink)@
            },
    {
        match self.stage {
            Stage::Streaming => {},
            _ => {
                return Err(CryptoError::InvalidState);
            },
        }
        proof {
            self.lemma_released();
        }
        match self.mode {
            Mode::Encrypt => {
                self.finish_encrypt(sink);
                Ok(())
            },
            Mode::Decrypt => {
                self.finish_decrypt(sink)
            },
        }
    }

    /// Pads, encrypts and writes what is still held.
    fn finish_encrypt(&mut self, sink: &mut Vec<u8>)
        requires
            old(self).wf(),
            old(self).stage == Stage::Streaming,
            old(self).mode == Mode::Encrypt,
        ensures
            final(self).wf(),
            final(self).cipher == old(self).cipher,
            final(self).mode == old(self).mode,
            final(self).staged.spec_capacity() == old(self).staged.spec_capacity(),
            final(self).consumed@ == old(self).consumed@,
            final(self).stage == Stage::Finalizing,
            final(self).fault == None::<CryptoError>,
            final(self).buffered() == 0,
            final(self).emitted@ == encrypted(old(self).cipher, old(self).consumed@),
            old(self).emitted@.is_prefix_of(final(self).emitted@),
            final(sink)@ == old(sink)@ + final(self).emitted@.skip(old(self).emitted@.len() as int),
    {
        let ghost total = self.consumed@;
        let ghost worked = self.worked();
        let ghost raw = self.staged@;
        let ghost held = pending_bytes(self.pending);
        proof {
            C::lemma_block_size();
            self.lemma_held();
            self.lemma_released();
        }
        seal_tail(self.cipher, &self.codec, &mut self.staged, &mut self.pending, sink);
        proof {
            let front = total.take(total.len() - raw.len() - held.len());
            assert(total =~= front + (held + raw));
            lemma_encrypted_split(self.cipher, front, held + raw);
            self.emitted@ = encrypted(self.cipher, total);
        }
        self.stage = Stage::Finalizing;
    }

    /// Decrypts what is still staged, checks the padding of the last block and
    /// writes the plaintext that is left.
    fn finish_decrypt(&mut self, sink: &mut Vec<u8>) -> (result: Result<(), CryptoError>)
        requires
            old(self).wf(),
            old(self).stage == Stage::Streaming,
            old(self).mode == Mode::Decrypt,
        ensures
            final(self).wf(),
            final(self).cipher == old(self).cipher,
            final(self).mode == old(self).mode,
            final(self).staged.spec_capacity() == old(self).staged.spec_capacity(),
            final(self).consumed@ == old(self).consumed@,
            final(self).buffered() == 0,
            match decrypted(old(self).cipher, old(self).consumed@) {
                Ok(output) => {
                    &&& result is Ok
                    &&& final(self).stage == Stage::Finalizing
                    &&& final(self).fault == None::<CryptoError>
                    &&& final(self).emitted@ == output
                    &&& old(self).emitted@.is_prefix_of(output)
                    &&& final(sink)@ == old(sink)@ + output.skip(old(self).emitted@.len() as int)
                },
                Err(e) => {
                    &&& result == Err::<(), CryptoError>(e)
                    &&& final(self).stage == Stage::Done
                    &&& final(self).fault == Some(e)
                    &&& final(self).emitted@ == old(self).emitted@
                    &&& final(sink)@ == old(sink)@
                },
            },
    {
        let ghost total = self.consumed@;
        let ghost worked = self.worked();
        let ghost raw = self.staged@;
        let ghost earlier = self.emitted@;
        let ghost held = pending_bytes(self.pending);
        proof {
            C::lemma_block_size();
            self.lemma_held();
            self.lemma_released();
        }
        let result = open_tail(self.cipher, &self.codec, &mut self.staged, &mut self.pending, sink);
        proof {
            let size = C::spec_block_size();
            let cipher = self.cipher;
            let mode = Mode::Decrypt;
            lemma_whole_blocks_add(worked, raw.len(), size);
            if raw.len() % size == 0 {
                let head = total.take(worked as int);
                assert(total =~= head + raw);
                lemma_transform_blocks_concat(cipher, mode, head, raw);
                lemma_worked_prefix(cipher, mode, total, worked);
                lemma_transform_blocks_len(cipher, mode, raw);
                let rest = held + decrypt_blocks(cipher, raw);
                assert(decrypt_blocks(cipher, total) =~= earlier + rest);
                lemma_strip_split(earlier, rest, size);
            }
        }
        match result {
            Ok(()) => {
                proof {
                    let output = decrypted(self.cipher, total)->Ok_0;
                    self.emitted@ = output;
                }
                self.stage = Stage::Finalizing;
                Ok(())
            },
            Err(e) => {
                self.fault = Some(e);
                self.stage = Stage::Done;
                Err(e)
            },
        }
    }

    /// What an open stream holds back: the withheld block is one block long, and
    /// what was written before it is the transform of the input before it.
    proof fn lemma_held(&self)
        requires
            self.structure(),
            self.tracks(self.worked()),
            self.staged@.len() <= self.consumed@.len(),
        ensures
            pending_bytes(self.pending).len() == (if self.worked() > 0 {
                C::spec_block_size()
            } else {
                0
            }),
            self.pending matches Some(block) ==> block@.len() == C::spec_block_size(),
            pending_bytes(self.pending).len() + self.staged@.len() <= self.consumed@.len(),
            (self.consumed@.len() - self.staged@.len() - pending_bytes(self.pending).len()) % (
            C::spec_block_size() as int) == 0,
            self.emitted@ == transform_blocks(
                self.cipher,
                self.mode,
                self.consumed@.take(
                    self.consumed@.len() - self.staged@.len() - pending_bytes(self.pending).len(),
                ),
            ),
            self.mode == Mode::Encrypt ==> pending_bytes(self.pending) == self.consumed@.subrange(
                self.consumed@.len() - self.staged@.len() - pending_bytes(self.pending).len(),
                self.consumed@.len() - self.staged@.len(),
            ),
            self.mode == Mode::Decrypt && self.worked() > 0 ==> pending_bytes(self.pending)
                == transform_block(
                self.cipher,
                self.mode,
                self.consumed@.subrange(
                    self.worked() - C::spec_block_size(),
                    self.worked() as int,
                ),
            ),
    {
        C::lemma_block_size();
        let size = C::spec_block_size();
        let worked = self.worked();
        lemma_whole_blocks_step(worked, size);
        if worked > 0 {
            self.cipher.lemma_block_len(self.consumed@.subrange(worked - size, worked as int));
        }
    }

    /// Tells the pipeline that the last of the output has reached the sink. The
    /// stream has ended well.
    ///
    /// The call is in order once, after [`Self::finish`] has succeeded. At any
    /// other time it changes nothing and returns the state error.
    pub fn close(&mut self) -> (result: Result<(), CryptoError>)
        requires
            old(self).wf(),
        ensures
            final(self).wf(),
            final(self).cipher() == old(self).cipher(),
            final(self).mode() == old(self).mode(),
            final(self).chunk_size() == old(self).chunk_size(),
            final(self).consumed() == old(self).consumed(),
            final(self).emitted() == old(self).emitted(),
            old(self).stage() == Stage::Finalizing ==> {
                &&& result is Ok
                &&& final(self).stage() == Stage::Done
                &&& final(self).fault() == None::<CryptoError>
            },
            old(self).stage() != Stage::Finalizing ==> {
                &&& result == Err::<(), CryptoError>(CryptoError::InvalidState)
                &&& *final(self) == *old(self)
            },
    {
        match self.stage {
            Stage::Finalizing => {
                self.stage = Stage::Done;
                Ok(())
            },
            _ => Err(CryptoError::InvalidState),
        }
    }

    /// Tells the pipeline that the source has failed. The stream ends here; the
    /// error to hand on is returned.
    ///
    /// On a pipeline that accepts no input any more the call changes nothing and
    /// returns the state error.
    pub fn source_failed(&mut self) -> (error: CryptoError)
        requires
            old(self).wf(),
        ensures
            final(self).wf(),
            final(self).cipher() == old(self).cipher(),
            final(self).mode() == old(self).mode(),
            final(self).chunk_size() == old(self).chunk_size(),
            final(self).consumed() == old(self).consumed(),
            final(self).emitted() == old(self).emitted(),
            old(self).stage() == Stage::Streaming ==> {
                &&& error == CryptoError::SourceReadError
                &&& final(self).stage() == Stage::Done
                &&& final(self).fault() == Some(CryptoError::SourceReadError)
                &&& final(self).buffered() == 0
            },
            old(self).stage() != Stage::Streaming ==> {
                &&& error == CryptoError::InvalidState
                &&& *final(self) == *old(self)
            },
    {
        match self.stage {
            Stage::Streaming => {
                self.stop(CryptoError::SourceReadError);
                CryptoError::SourceReadError
            },
            _ => CryptoError::InvalidState,
        }
    }

    /// Tells the pipeline that the sink has failed. The stream ends here; the
    /// error to hand on is returned.
    ///
    /// On a pipeline that has ended already the call changes nothing and returns
    /// the state error.
    pub fn sink_failed(&mut self) -> (error: CryptoError)
        requires
            old(self).wf(),
        ensures
            final(self).wf(),
            final(self).cipher() == old(self).cipher(),
            final(self).mode() == old(self).mode(),
            final(self).chunk_size() == old(self).chunk_size(),
            final(self).consumed() == old(self).consumed(),
            final(self).emitted() == old(self).emitted(),
            old(self).stage() != Stage::Done ==> {
                &&& error == CryptoError::SinkWriteError
                &&& final(self).stage() == Stage::Done
                &&& final(self).fault() == Some(CryptoError::SinkWriteError)
                &&& final(self).buffered() == 0
            },
            old(self).stage() == Stage::Done ==> {
                &&& error == CryptoError::InvalidState
                &&& *final(self) == *old(self)
            },
    {
        match self.stage {
            Stage::Done => CryptoError::InvalidState,
            _ => {
                self.stop(CryptoError::SinkWriteError);
                CryptoError::SinkWriteError
            },
        }
    }

    /// Ends a stream with a failure of the source or the sink: drops what is
    /// held and records the failure.
    fn stop(&mut self, cause: CryptoError)
        requires
            old(self).wf(),
            old(self).stage == Stage::Streaming && cause == CryptoError::SourceReadError || old(
                self,
            ).stage != Stage::Done && cause == CryptoError::SinkWriteError,
        ensures
            final(self).wf(),
            final(self).cipher == old(self).cipher,
            final(self).mode == old(self).mode,
            final(self).staged.spec_capacity() == old(self).staged.spec_capacity(),
            final(self).consumed@ == old(self).consumed@,
            final(self).emitted@ == old(self).emitted@,
            final(self).stage == Stage::Done,
            final(self).fault == Some(cause),
            final(self).buffered() == 0,
    {
        proof {
            if self.stage == Stage::Streaming {
                self.lemma_released();
            }
        }
        self.staged.clear();
        self.pending = None;
        self.fault = Some(cause);
        self.stage = Stage::Done;
    }

    /// Where the input stands in its chunks: the bytes that have left the
    /// staging buffer are the whole chunks seen so far.
    proof fn lemma_position(&self)
        requires
            self.structure(),
            self.staged@.len() < self.staged.spec_capacity(),
            self.staged@.len() <= self.consumed@.len(),
            self.worked() % self.staged.spec_capacity() == 0,
        ensures
            self.consumed@.len() % self.staged.spec_capacity() == self.staged@.len(),
            self.worked() > 0 ==> self.consumed@.len() >= self.staged.spec_capacity()
                && released_len(
                self.consumed@.len(),
                self.staged.spec_capacity(),
                C::spec_block_size(),
            ) == self.worked() - C::spec_block_size(),
            self.worked() == 0 ==> released_len(
                self.consumed@.len(),
                self.staged.spec_capacity(),
                C::spec_block_size(),
            ) == 0,
    {
        C::lemma_block_size();
        let chunk = self.staged.spec_capacity();
        let worked = self.worked();
        let staged = self.staged@.len();
        lemma_whole_blocks_add(worked, staged, chunk);
        vstd::arithmetic::div_mod::lemma_small_mod(staged, chunk);
        lemma_whole_blocks_step(worked, chunk);
    }

    /// While a stream is open, what has been written is what the input so far
    /// releases.
    proof fn lemma_released(&self)
        requires
            self.wf(),
            self.stage == Stage::Streaming,
        ensures
            self.emitted@ == released_output(
                self.cipher,
                self.mode,
                self.consumed@,
                self.staged.spec_capacity(),
            ),
    {
        C::lemma_block_size();
        let chunk = self.staged.spec_capacity();
        let worked = self.worked();
        let staged = self.staged@.len();
        lemma_whole_blocks_add(worked, staged, chunk);
        vstd::arithmetic::div_mod::lemma_small_mod(staged, chunk);
        lemma_whole_blocks_step(worked, chunk);
    }

    /// What a pipeline has written is fixed by its input, whatever the fragments
    /// in which the input came.
    ///
    /// While the stream is open it is what the input so far releases under the
    /// chunk size, and so it stays where the stream fails. Once the stream has
    /// come to its end without a failure it is the whole output of the input,
    /// which does not depend on the chunk size. A failure of the sink may be
    /// reported in either situation.
    pub proof fn lemma_output(&self)
        requires
            self.wf(),
        ensures
            self.stage() != Stage::Done ==> self.fault() == None::<CryptoError>,
            self.ended_well() ==> stream_output(self.cipher(), self.mode(), self.consumed())
                == Ok::<Seq<u8>, CryptoError>(self.emitted()),
            self.stage() == Stage::Streaming || (self.fault() != None::<CryptoError>
                && self.fault() != Some(CryptoError::SinkWriteError)) ==> self.emitted()
                == released_output(
                self.cipher(),
                self.mode(),
                self.consumed(),
                self.chunk_size(),
            ),
            self.fault() == Some(CryptoError::SinkWriteError) ==> self.emitted()
                == released_output(
                self.cipher(),
                self.mode(),
                self.consumed(),
                self.chunk_size(),
            ) || stream_output(self.cipher(), self.mode(), self.consumed()) == Ok::<
                Seq<u8>,
                CryptoError,
            >(self.emitted()),
            self.stage() != Stage::Streaming ==> self.buffered() == 0,
    {
        if self.stage == Stage::Streaming {
            self.lemma_released();
        }
    }

    /// A stream that has ended with one of the two failures of decryption was
    /// being decrypted, and its input has no plaintext for that reason.
    pub proof fn lemma_fault(&self)
        requires
            self.wf(),
        ensures
            self.fault() == Some(CryptoError::TruncatedCiphertext) || self.fault() == Some(
                CryptoError::InvalidPadding,
            ) ==> self.mode() == Mode::Decrypt && decrypted(self.cipher(), self.consumed())
                == Err::<Seq<u8>, CryptoError>(self.fault()->Some_0),
    {
    }

    /// How many bytes an open pipeline holds is fixed by the length of its input:
    /// what has come in since the last whole chunk, and one block more once a
    /// chunk has been worked on.
    pub proof fn lemma_buffered(&self)
        requires
            self.wf(),
        ensures
            self.stage() == Stage::Streaming ==> self.buffered() == self.consumed().len()
                % self.chunk_size() + (if self.consumed().len() < self.chunk_size() {
                0nat
            } else {
                C::spec_block_size()
            }),
            self.stage() != Stage::Streaming ==> self.buffered() == 0,
    {
        if self.stage == Stage::Streaming {
            self.lemma_position();
            self.lemma_held();
            let chunk = self.staged.spec_capacity();
            lemma_whole_blocks_step(self.worked(), chunk);
        }
    }

    /// A pipeline never holds more than one chunk and one block of its stream.
    pub proof fn lemma_bounded(&self)
        requires
            self.wf(),
        ensures
            self.buffered() <= self.chunk_size() + C::spec_block_size(),
            self.stage() == Stage::Streaming ==> self.buffered() < self.chunk_size()
                + C::spec_block_size(),
            self.chunk_size() + C::spec_block_size() <= usize::MAX,
    {
        C::lemma_block_size();
        if self.stage == Stage::Streaming && self.worked() > 0 {
            let size = C::spec_block_size();
            self.cipher.lemma_block_len(
                self.consumed@.subrange(self.worked() - size, self.worked() as int),
            );
        }
    }
}

} // verus!
