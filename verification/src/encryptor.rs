//! The block pump: drives a source buffer through the streaming state
//! machine one block per step, keeping the ciphertext it has written.
//! `step` is owed exactly while `current_step < total_step`; `finalize`
//! consumes the pump, seals the trailing partial block, and hands the
//! body back.

use vstd::prelude::*;

use crate::backend::{stream_seal, zeroize_vec};
use crate::error::Error;
use crate::header::push_bytes;
use crate::primitives::BLOCK_SIZE;
use crate::stream::{body_cipher_rel, StreamEncryption};

verus! {

/// Which call the pump is owed next.
#[derive(Clone, Copy, Debug, PartialEq, Eq, Structural)]
pub enum StreamStepType {
    Normal,
    Final,
}

/// A pump over an in-memory source: the cipher stream, the source, the
/// ciphertext written so far, and the step bookkeeping.
pub struct StreamEncryptor {
    pub stream_object: StreamEncryption,
    pub source: Vec<u8>,
    pub output: Vec<u8>,
    pub current_step: u32,
    pub total_step: u32,
}

impl StreamEncryptor {
    /// The pump's invariant: the step counters agree with the stream
    /// position and with what has been read and written, and whatever
    /// well-formed continuation of the remaining source exists extends
    /// the output to a body of the whole source.
    pub open spec fn wf(self) -> bool {
        &&& self.current_step <= self.total_step
        &&& self.total_step < 0x1000
        &&& self.stream_object.counter() == self.current_step
        &&& 1048576 * self.current_step <= self.source@.len()
        &&& forall|ct_rest: Seq<u8>|
            body_cipher_rel(
                self.stream_object.algorithm(),
                self.stream_object.key(),
                self.stream_object.nonce(),
                self.source@.skip(1048576 * self.current_step),
                ct_rest,
                self.current_step as nat,
            ) ==> body_cipher_rel(
                self.stream_object.algorithm(),
                self.stream_object.key(),
                self.stream_object.nonce(),
                self.source@,
                #[trigger] (self.output@ + ct_rest),
                0,
            )
    }

    /// Build a pump over `source`, declared to hold `file_size` bytes;
    /// one normal step is owed per declared full block.
    pub fn new(stream_object: StreamEncryption, source: Vec<u8>, file_size: u32) -> (r:
        StreamEncryptor)
        requires
            stream_object.counter() == 0,
        ensures
            r.wf(),
            r.stream_object.algorithm() == stream_object.algorithm(),
            r.stream_object.key() == stream_object.key(),
            r.stream_object.nonce() == stream_object.nonce(),
            r.source@ == source@,
            r.output@.len() == 0,
            r.current_step == 0,
            r.total_step as int == file_size as int / BLOCK_SIZE as int,
    {
        let total_step = file_size / (BLOCK_SIZE as u32);
        let r = StreamEncryptor {
            stream_object,
            source,
            output: Vec::new(),
            current_step: 0,
            total_step,
        };
        proof {
            assert(BLOCK_SIZE == 1048576);
            assert forall|ct_rest: Seq<u8>|
                body_cipher_rel(
                    r.stream_object.algorithm(),
                    r.stream_object.key(),
                    r.stream_object.nonce(),
                    r.source@.skip(0),
                    ct_rest,
                    0,
                ) implies body_cipher_rel(
                r.stream_object.algorithm(),
                r.stream_object.key(),
                r.stream_object.nonce(),
                r.source@,
                #[trigger] (r.output@ + ct_rest),
                0,
            ) by {
                assert(r.source@.skip(0) =~= r.source@);
                assert(r.output@ + ct_rest =~= ct_rest);
            }
        }
        r
    }

    /// `Normal` while full-block steps are owed, `Final` once only the
    /// trailing call remains. Call it before each `step` or `finalize`.
    pub fn get_step_type(&self) -> (r: StreamStepType)
        ensures
            r == StreamStepType::Normal <==> self.current_step < self.total_step,
    {
        if self.current_step < self.total_step {
            StreamStepType::Normal
        } else {
            StreamStepType::Final
        }
    }

    /// Read one full block, seal it as a middle segment, and write it.
    /// Owed exactly while `current_step < total_step`; stepping a pump
    /// whose normal steps are done is `IncorrectStep`, and a source too
    /// short for its declared size is `ReadUnderflow`.
    pub fn step(&mut self) -> (r: Result<(), Error>)
        requires
            old(self).wf(),
        ensures
            final(self).wf(),
            final(self).stream_object.algorithm() == old(self).stream_object.algorithm(),
            final(self).stream_object.key() == old(self).stream_object.key(),
            final(self).stream_object.nonce() == old(self).stream_object.nonce(),
            final(self).source == old(self).source,
            final(self).total_step == old(self).total_step,
            r matches Ok(u) ==> final(self).current_step == old(self).current_step + 1,
            r matches Ok(u) ==> final(self).output@ == old(self).output@ + stream_seal(
                old(self).stream_object.algorithm(),
                old(self).stream_object.key(),
                old(self).stream_object.nonce(),
                old(self).current_step as nat,
                false,
                old(self).source@.subrange(
                    1048576 * old(self).current_step as int,
                    1048576 * old(self).current_step as int + 1048576,
                ),
            ),
            r is Ok <==> (old(self).current_step < old(self).total_step && old(
                self,
            ).source@.len() >= 1048576 * (old(self).current_step + 1)),
            r matches Err(e) ==> *final(self) == *old(self),
            r matches Err(e) ==> (e == Error::IncorrectStep <==> old(self).current_step >= old(
                self,
            ).total_step),
            r matches Err(e) ==> (e == Error::ReadUnderflow <==> old(self).current_step < old(
                self,
            ).total_step),
    {
        proof {
            assert(BLOCK_SIZE == 1048576);
        }
        if self.current_step >= self.total_step {
            return Err(Error::IncorrectStep);
        }
        let pos = (self.current_step as usize) * BLOCK_SIZE;
        if self.source.len() - pos < BLOCK_SIZE {
            return Err(Error::ReadUnderflow);
        }
        let ghost out_old = self.output@;
        let ghost pos_old = pos as int;
        let ghost step_old = self.current_step as nat;
        let block = vstd::slice::slice_subrange(self.source.as_slice(), pos, pos + BLOCK_SIZE);
        let sealed = self.stream_object.encrypt_next(block);
        push_bytes(&mut self.output, sealed.as_slice());
        self.current_step = self.current_step + 1;
        proof {
            let alg = self.stream_object.algorithm();
            let key = self.stream_object.key();
            let nonce = self.stream_object.nonce();
            let src = self.source@;
            let pos_new = 1048576 * self.current_step as int;
            assert forall|ct_rest: Seq<u8>|
                body_cipher_rel(alg, key, nonce, src.skip(pos_new), ct_rest, self.current_step as nat)
                    implies body_cipher_rel(
                alg,
                key,
                nonce,
                src,
                #[trigger] (self.output@ + ct_rest),
                0,
            ) by {
                let mid = sealed@ + ct_rest;
                assert(mid.subrange(0, BLOCK_SIZE + 16) =~= sealed@);
                assert(mid.skip(BLOCK_SIZE + 16) =~= ct_rest);
                assert(src.skip(pos_old).subrange(0, BLOCK_SIZE as int)
                    =~= src.subrange(pos_old, pos_old + BLOCK_SIZE));
                assert(src.skip(pos_old).skip(BLOCK_SIZE as int) =~= src.skip(pos_new));
                assert(src.skip(pos_old).len() >= BLOCK_SIZE);
                assert(body_cipher_rel(alg, key, nonce, src.skip(pos_old), mid, step_old));
                assert(out_old + mid =~= self.output@ + ct_rest);
            }
        }
        Ok(())
    }

    /// Seal the trailing partial block as the final segment and hand the
    /// whole body back, consuming the pump. Owed exactly when every
    /// normal step is done and less than a full block remains.
    pub fn finalize(self) -> (r: Result<Vec<u8>, Error>)
        requires
            self.wf(),
        ensures
            r matches Ok(out) ==> body_cipher_rel(
                self.stream_object.algorithm(),
                self.stream_object.key(),
                self.stream_object.nonce(),
                self.source@,
                out@,
                0,
            ),
            r is Ok <==> (self.current_step == self.total_step && self.source@.len() < 1048576 * (
            self.current_step + 1)),
            r matches Err(e) ==> e == Error::IncorrectStep,
    {
        proof {
            assert(BLOCK_SIZE == 1048576);
        }
        let StreamEncryptor { stream_object, mut source, mut output, current_step, total_step } = self;
        if current_step < total_step {
            zeroize_vec(&mut source);
            return Err(Error::IncorrectStep);
        }
        let pos = (current_step as usize) * BLOCK_SIZE;
        if source.len() - pos >= BLOCK_SIZE {
            zeroize_vec(&mut source);
            return Err(Error::IncorrectStep);
        }
        let ghost alg = stream_object.algorithm();
        let ghost key = stream_object.key();
        let ghost nonce = stream_object.nonce();
        let ghost out_old = output@;
        let tail = vstd::slice::slice_subrange(source.as_slice(), pos, source.len());
        let sealed = stream_object.encrypt_last(tail);
        proof {
            assert(tail@ =~= source@.skip(pos as int));
            assert(body_cipher_rel(alg, key, nonce, source@.skip(pos as int), sealed@, current_step as nat));
        }
        push_bytes(&mut output, sealed.as_slice());
        zeroize_vec(&mut source);
        proof {
            assert(output@ =~= out_old + sealed@);
        }
        Ok(output)
    }
}

} // verus!
