//! The streaming AEAD state machine: block-by-block authenticated
//! encryption and decryption under the 31-bit little-endian STREAM
//! construction. A segment sealed at position `i` with the last flag
//! clear is a middle block; the final segment is sealed with the flag
//! set, and taking ownership on the last call makes a second terminal
//! call impossible to express.

use vstd::prelude::*;

use aead::stream::{DecryptorLE31, EncryptorLE31};
use aes_gcm::Aes256Gcm;
use chacha20poly1305::XChaCha20Poly1305;

use crate::backend::{aes_stream_seal, stream_seal, xchacha_stream_seal};
use crate::error::Error;
use crate::backend::zeroize_vec;
use crate::header::push_bytes;
use crate::primitives::{Algorithm, Mode, spec_nonce_len, BLOCK_SIZE};

verus! {

/// Greatest STREAM position at which a last segment may still be sealed.
pub const STREAM_COUNTER_MAX: u32 = 0x0FFFFFFF;

/// Holds whichever outside stream encryptor the algorithm selected.
/// Opaque: everything known of it is said by the trusted calls below.
#[verifier::external_body]
pub struct RawStreamEncryptor {
    xchacha: Option<EncryptorLE31<XChaCha20Poly1305>>,
    aes: Option<EncryptorLE31<Aes256Gcm>>,
}

/// Holds whichever outside stream decryptor the algorithm selected.
#[verifier::external_body]
pub struct RawStreamDecryptor {
    xchacha: Option<DecryptorLE31<XChaCha20Poly1305>>,
    aes: Option<DecryptorLE31<Aes256Gcm>>,
}

/// A live encryption stream: the cipher state, and the key, base nonce
/// and position it was built over, kept as ghost data for the contracts.
/// The fields are private to this module, so a value can only come from
/// `init`, which records exactly what the cipher state was built from;
/// the trusted calls below rely on that coupling.
pub struct StreamEncryption {
    raw: RawStreamEncryptor,
    algorithm: Algorithm,
    key: Ghost<Seq<u8>>,
    nonce: Ghost<Seq<u8>>,
    counter: Ghost<nat>,
}

impl StreamEncryption {
    /// The cipher this stream seals under.
    pub closed spec fn algorithm(self) -> Algorithm {
        self.algorithm
    }

    /// The key this stream was built over.
    pub closed spec fn key(self) -> Seq<u8> {
        self.key@
    }

    /// The base nonce this stream was built over.
    pub closed spec fn nonce(self) -> Seq<u8> {
        self.nonce@
    }

    /// The position of the next segment.
    pub closed spec fn counter(self) -> nat {
        self.counter@
    }
}

/// A live decryption stream, mirroring `StreamEncryption`: private
/// fields keep the ghost model tied to the cipher state `init` built.
pub struct StreamDecryption {
    raw: RawStreamDecryptor,
    algorithm: Algorithm,
    key: Ghost<Seq<u8>>,
    nonce: Ghost<Seq<u8>>,
    counter: Ghost<nat>,
}

impl StreamDecryption {
    /// The cipher this stream opens under.
    pub closed spec fn algorithm(self) -> Algorithm {
        self.algorithm
    }

    /// The key this stream was built over.
    pub closed spec fn key(self) -> Seq<u8> {
        self.key@
    }

    /// The base nonce this stream was built over.
    pub closed spec fn nonce(self) -> Seq<u8> {
        self.nonce@
    }

    /// The position of the next segment.
    pub closed spec fn counter(self) -> nat {
        self.counter@
    }
}

/// Relies on aead's `Encryptor::new` for `StreamLE31<XChaCha20Poly1305>`:
/// starts a STREAM at position zero over the given key and 20-byte nonce.
#[verifier::external_body]
fn raw_enc_xchacha(key: &[u8; 32], nonce: &[u8]) -> RawStreamEncryptor
    requires
        nonce@.len() == 20,
{
    RawStreamEncryptor {
        xchacha: Some(EncryptorLE31::new(
            aead::generic_array::GenericArray::from_slice(key),
            aead::generic_array::GenericArray::from_slice(nonce),
        )),
        aes: None,
    }
}

/// Relies on aead's `Encryptor::new` for `StreamLE31<Aes256Gcm>`: starts
/// a STREAM at position zero over the given key and 8-byte nonce.
#[verifier::external_body]
fn raw_enc_aes(key: &[u8; 32], nonce: &[u8]) -> RawStreamEncryptor
    requires
        nonce@.len() == 8,
{
    RawStreamEncryptor {
        xchacha: None,
        aes: Some(EncryptorLE31::new(
            aead::generic_array::GenericArray::from_slice(key),
            aead::generic_array::GenericArray::from_slice(nonce),
        )),
    }
}

/// Relies on aead's `Decryptor::new` for `StreamLE31<XChaCha20Poly1305>`.
#[verifier::external_body]
fn raw_dec_xchacha(key: &[u8; 32], nonce: &[u8]) -> RawStreamDecryptor
    requires
        nonce@.len() == 20,
{
    RawStreamDecryptor {
        xchacha: Some(DecryptorLE31::new(
            aead::generic_array::GenericArray::from_slice(key),
            aead::generic_array::GenericArray::from_slice(nonce),
        )),
        aes: None,
    }
}

/// Relies on aead's `Decryptor::new` for `StreamLE31<Aes256Gcm>`.
#[verifier::external_body]
fn raw_dec_aes(key: &[u8; 32], nonce: &[u8]) -> RawStreamDecryptor
    requires
        nonce@.len() == 8,
{
    RawStreamDecryptor {
        xchacha: None,
        aes: Some(DecryptorLE31::new(
            aead::generic_array::GenericArray::from_slice(key),
            aead::generic_array::GenericArray::from_slice(nonce),
        )),
    }
}

/// Relies on aead's `Encryptor::encrypt_next`: below the counter limit it
/// seals the block at the current position with the last flag clear,
/// advances the position, and appends a 16-byte tag; the segment depends
/// on key, nonce, position and block alone.
#[verifier::external_body]
fn raw_encrypt_next(s: &mut StreamEncryption, block: &[u8]) -> (r: Vec<u8>)
    requires
        old(s).counter() < 0x0FFFFFFF,
        block@.len() <= 0x80000000,
    ensures
        final(s).algorithm() == old(s).algorithm(),
        final(s).key() == old(s).key(),
        final(s).nonce() == old(s).nonce(),
        final(s).counter() == old(s).counter() + 1,
        r@ == stream_seal(
            old(s).algorithm(),
            old(s).key(),
            old(s).nonce(),
            old(s).counter(),
            false,
            block@,
        ),
        old(s).algorithm() == Algorithm::XChaCha20Poly1305 ==> r@ == xchacha_stream_seal(
            old(s).key(),
            old(s).nonce(),
            old(s).counter(),
            false,
            block@,
        ),
        old(s).algorithm() == Algorithm::Aes256Gcm ==> r@ == aes_stream_seal(
            old(s).key(),
            old(s).nonce(),
            old(s).counter(),
            false,
            block@,
        ),
        r@.len() == block@.len() + 16,
{
    match (&mut s.raw.xchacha, &mut s.raw.aes) {
        (Some(e), _) => e.encrypt_next(block).unwrap(),
        (_, Some(e)) => e.encrypt_next(block).unwrap(),
        _ => Vec::new(),
    }
}

/// Relies on aead's `Encryptor::encrypt_last`: consumes the stream and
/// seals the final block at the current position with the last flag set;
/// the segment depends on key, nonce, position and block alone.
#[verifier::external_body]
fn raw_encrypt_last(s: StreamEncryption, block: &[u8]) -> (r: Vec<u8>)
    requires
        s.counter() <= 0x0FFFFFFF,
        block@.len() <= 0x80000000,
    ensures
        r@ == stream_seal(s.algorithm(), s.key(), s.nonce(), s.counter(), true, block@),
        r@.len() == block@.len() + 16,
{
    match (s.raw.xchacha, s.raw.aes) {
        (Some(e), _) => e.encrypt_last(block).unwrap(),
        (_, Some(e)) => e.encrypt_last(block).unwrap(),
        _ => Vec::new(),
    }
}

/// Relies on aead's `Decryptor::decrypt_next`: verifies the tag of the
/// segment at the current position (last flag clear) and advances on
/// success; it succeeds exactly on segments sealed at that position
/// under the same key and nonce, returning the block that was sealed.
#[verifier::external_body]
fn raw_decrypt_next(s: &mut StreamDecryption, block: &[u8]) -> (r: Result<Vec<u8>, Error>)
    requires
        old(s).counter() < 0x0FFFFFFF,
    ensures
        final(s).algorithm() == old(s).algorithm(),
        final(s).key() == old(s).key(),
        final(s).nonce() == old(s).nonce(),
        r matches Ok(p) ==> {
            &&& final(s).counter() == old(s).counter() + 1
            &&& block@ == stream_seal(
                old(s).algorithm(),
                old(s).key(),
                old(s).nonce(),
                old(s).counter(),
                false,
                p@,
            )
            &&& p@.len() + 16 == block@.len()
        },
        r matches Ok(p) ==> forall|q: Seq<u8>|
            block@ == stream_seal(
                old(s).algorithm(),
                old(s).key(),
                old(s).nonce(),
                old(s).counter(),
                false,
                q,
            ) ==> q == p@,
        r matches Err(e) ==> e == Error::Decrypt && final(s).counter() == old(s).counter(),
        r is Err ==> forall|q: Seq<u8>|
            block@ != stream_seal(
                old(s).algorithm(),
                old(s).key(),
                old(s).nonce(),
                old(s).counter(),
                false,
                q,
            ),
{
    let r = match (&mut s.raw.xchacha, &mut s.raw.aes) {
        (Some(d), _) => d.decrypt_next(block),
        (_, Some(d)) => d.decrypt_next(block),
        _ => return Err(Error::Decrypt),
    };
    r.map_err(|_| Error::Decrypt)
}

/// Relies on aead's `Decryptor::decrypt_last`: consumes the stream and
/// verifies the final segment (last flag set) at the current position;
/// it succeeds exactly on segments sealed as last at that position under
/// the same key and nonce, returning the block that was sealed.
#[verifier::external_body]
fn raw_decrypt_last(s: StreamDecryption, block: &[u8]) -> (r: Result<Vec<u8>, Error>)
    requires
        s.counter() <= 0x0FFFFFFF,
    ensures
        r matches Ok(p) ==> block@ == stream_seal(s.algorithm(), s.key(), s.nonce(), s.counter(), true, p@)
            && p@.len() + 16 == block@.len(),
        r matches Ok(p) ==> forall|q: Seq<u8>|
            block@ == stream_seal(s.algorithm(), s.key(), s.nonce(), s.counter(), true, q) ==> q == p@,
        r matches Err(e) ==> e == Error::Decrypt,
        r is Err ==> forall|q: Seq<u8>|
            block@ != stream_seal(s.algorithm(), s.key(), s.nonce(), s.counter(), true, q),
{
    let r = match (s.raw.xchacha, s.raw.aes) {
        (Some(d), _) => d.decrypt_last(block),
        (_, Some(d)) => d.decrypt_last(block),
        _ => return Err(Error::Decrypt),
    };
    r.map_err(|_| Error::Decrypt)
}

impl StreamEncryption {
    /// Start an encryption stream. Fails exactly when the nonce does not
    /// have the stream-policy length of the algorithm.
    pub fn init(key: &[u8; 32], nonce: &[u8], algorithm: Algorithm) -> (r: Result<
        StreamEncryption,
        Error,
    >)
        ensures
            match r {
                Ok(s) => {
                    &&& nonce@.len() == spec_nonce_len(algorithm, Mode::Stream)
                    &&& s.algorithm() == algorithm
                    &&& s.key() == key@
                    &&& s.nonce() == nonce@
                    &&& s.counter() == 0
                },
                Err(e) => {
                    &&& e == Error::NonceLengthMismatch
                    &&& nonce@.len() != spec_nonce_len(algorithm, Mode::Stream)
                },
            },
    {
        if nonce.len() != algorithm.nonce_len(Mode::Stream) {
            return Err(Error::NonceLengthMismatch);
        }
        let raw = match algorithm {
            Algorithm::XChaCha20Poly1305 => raw_enc_xchacha(key, nonce),
            Algorithm::Aes256Gcm => raw_enc_aes(key, nonce),
        };
        Ok(
            StreamEncryption {
                raw,
                algorithm,
                key: Ghost(key@),
                nonce: Ghost(nonce@),
                counter: Ghost(0nat),
            },
        )
    }

    /// Seal one middle block at the current position and advance.
    pub fn encrypt_next(&mut self, block: &[u8]) -> (r: Vec<u8>)
        requires
            old(self).counter() < STREAM_COUNTER_MAX,
            block@.len() <= 0x80000000,
        ensures
            final(self).algorithm() == old(self).algorithm(),
            final(self).key() == old(self).key(),
            final(self).nonce() == old(self).nonce(),
            final(self).counter() == old(self).counter() + 1,
            r@ == stream_seal(
                old(self).algorithm(),
                old(self).key(),
                old(self).nonce(),
                old(self).counter(),
                false,
                block@,
            ),
            r@.len() == block@.len() + 16,
    {
        raw_encrypt_next(self, block)
    }

    /// Seal the final block, consuming the stream so that no further
    /// segment can ever be produced from it.
    pub fn encrypt_last(self, block: &[u8]) -> (r: Vec<u8>)
        requires
            self.counter() <= STREAM_COUNTER_MAX,
            block@.len() <= 0x80000000,
        ensures
            r@ == stream_seal(self.algorithm(), self.key(), self.nonce(), self.counter(), true, block@),
            r@.len() == block@.len() + 16,
    {
        raw_encrypt_last(self, block)
    }
}

impl StreamDecryption {
    /// Start a decryption stream. Fails exactly when the nonce does not
    /// have the stream-policy length of the algorithm.
    pub fn init(key: &[u8; 32], nonce: &[u8], algorithm: Algorithm) -> (r: Result<
        StreamDecryption,
        Error,
    >)
        ensures
            match r {
                Ok(s) => {
                    &&& nonce@.len() == spec_nonce_len(algorithm, Mode::Stream)
                    &&& s.algorithm() == algorithm
                    &&& s.key() == key@
                    &&& s.nonce() == nonce@
                    &&& s.counter() == 0
                },
                Err(e) => {
                    &&& e == Error::NonceLengthMismatch
                    &&& nonce@.len() != spec_nonce_len(algorithm, Mode::Stream)
                },
            },
    {
        if nonce.len() != algorithm.nonce_len(Mode::Stream) {
            return Err(Error::NonceLengthMismatch);
        }
        let raw = match algorithm {
            Algorithm::XChaCha20Poly1305 => raw_dec_xchacha(key, nonce),
            Algorithm::Aes256Gcm => raw_dec_aes(key, nonce),
        };
        Ok(
            StreamDecryption {
                raw,
                algorithm,
                key: Ghost(key@),
                nonce: Ghost(nonce@),
                counter: Ghost(0nat),
            },
        )
    }

    /// Open one middle segment at the current position and advance.
    pub fn decrypt_next(&mut self, block: &[u8]) -> (r: Result<Vec<u8>, Error>)
        requires
            old(self).counter() < STREAM_COUNTER_MAX,
        ensures
            final(self).algorithm() == old(self).algorithm(),
            final(self).key() == old(self).key(),
            final(self).nonce() == old(self).nonce(),
            r matches Ok(p) ==> {
                &&& final(self).counter() == old(self).counter() + 1
                &&& block@ == stream_seal(
                    old(self).algorithm(),
                    old(self).key(),
                    old(self).nonce(),
                    old(self).counter(),
                    false,
                    p@,
                )
                &&& p@.len() + 16 == block@.len()
            },
            r matches Ok(p) ==> forall|q: Seq<u8>|
                block@ == stream_seal(
                    old(self).algorithm(),
                    old(self).key(),
                    old(self).nonce(),
                    old(self).counter(),
                    false,
                    q,
                ) ==> q == p@,
            r matches Err(e) ==> e == Error::Decrypt && final(self).counter() == old(self).counter(),
            r is Err ==> forall|q: Seq<u8>|
                block@ != stream_seal(
                    old(self).algorithm(),
                    old(self).key(),
                    old(self).nonce(),
                    old(self).counter(),
                    false,
                    q,
                ),
    {
        raw_decrypt_next(self, block)
    }

    /// Open the final segment, consuming the stream.
    pub fn decrypt_last(self, block: &[u8]) -> (r: Result<Vec<u8>, Error>)
        requires
            self.counter() <= STREAM_COUNTER_MAX,
        ensures
            r matches Ok(p) ==> block@ == stream_seal(
                self.algorithm(),
                self.key(),
                self.nonce(),
                self.counter(),
                true,
                p@,
            ) && p@.len() + 16 == block@.len(),
            r matches Ok(p) ==> forall|q: Seq<u8>|
                block@ == stream_seal(self.algorithm(), self.key(), self.nonce(), self.counter(), true, q)
                    ==> q == p@,
            r matches Err(e) ==> e == Error::Decrypt,
            r is Err ==> forall|q: Seq<u8>|
                block@ != stream_seal(self.algorithm(), self.key(), self.nonce(), self.counter(), true, q),
    {
        raw_decrypt_last(self, block)
    }
}

/// The body of a stream-mode file: `ct` is exactly the segment sequence
/// that seals `pt` block by block from `position`, every middle segment
/// carrying a full block, the final segment the remainder.
pub open spec fn body_cipher_rel(
    alg: Algorithm,
    key: Seq<u8>,
    nonce: Seq<u8>,
    pt: Seq<u8>,
    ct: Seq<u8>,
    position: nat,
) -> bool
    decreases pt.len(),
{
    if pt.len() < BLOCK_SIZE {
        ct == stream_seal(alg, key, nonce, position, true, pt) && ct.len() == pt.len() + 16
    } else {
        &&& ct.len() >= BLOCK_SIZE + 16
        &&& ct.subrange(0, BLOCK_SIZE + 16) == stream_seal(
            alg,
            key,
            nonce,
            position,
            false,
            pt.subrange(0, BLOCK_SIZE as int),
        )
        &&& body_cipher_rel(
            alg,
            key,
            nonce,
            pt.skip(BLOCK_SIZE as int),
            ct.skip(BLOCK_SIZE + 16),
            position + 1,
        )
    }
}


impl StreamEncryption {
    /// Encrypt a whole source in one pass: every full block as a middle
    /// segment in order, the remainder (possibly empty) as the final
    /// segment. The output stands in the body-cipher relation to the
    /// source.
    pub fn encrypt_streams(self, source: &[u8]) -> (r: Result<Vec<u8>, Error>)
        requires
            self.counter() == 0,
            source@.len() < 0x100000000,
        ensures
            r matches Ok(out) ==> body_cipher_rel(
                self.algorithm(),
                self.key(),
                self.nonce(),
                source@,
                out@,
                0,
            ),
            r is Ok,
    {
        let ghost alg = self.algorithm();
        let ghost key = self.key();
        let ghost nonce = self.nonce();
        let mut stream = self;
        let mut out: Vec<u8> = Vec::new();
        let mut pos: usize = 0;
        let mut step: u32 = 0;
        proof {
            assert forall|ct_rest: Seq<u8>|
                body_cipher_rel(alg, key, nonce, source@.skip(0), ct_rest, 0)
                    implies body_cipher_rel(alg, key, nonce, source@, #[trigger] (out@ + ct_rest), 0) by {
                assert(source@.skip(0) =~= source@);
                assert(out@ + ct_rest =~= ct_rest);
            }
        }
        while source.len() - pos >= BLOCK_SIZE
            invariant
                stream.algorithm() == alg,
                stream.key() == key,
                stream.nonce() == nonce,
                stream.counter() == step,
                pos == step * BLOCK_SIZE,
                pos <= source@.len() < 0x100000000,
                forall|ct_rest: Seq<u8>|
                    body_cipher_rel(alg, key, nonce, source@.skip(pos as int), ct_rest, step as nat)
                        ==> body_cipher_rel(alg, key, nonce, source@, #[trigger] (out@ + ct_rest), 0),
            decreases source@.len() - pos,
        {
            proof {
                assert(BLOCK_SIZE == 1048576);
                assert(step * BLOCK_SIZE < 0x100000000);
                assert(step < 0x0FFFFFFF);
            }
            let block = vstd::slice::slice_subrange(source, pos, pos + BLOCK_SIZE);
            let sealed = stream.encrypt_next(block);
            let ghost out_old = out@;
            let ghost pos_old = pos as int;
            let ghost step_old = step as nat;
            push_bytes(&mut out, sealed.as_slice());
            pos = pos + BLOCK_SIZE;
            step = step + 1;
            proof {
                let src = source@;
                assert forall|ct_rest: Seq<u8>|
                    body_cipher_rel(alg, key, nonce, src.skip(pos as int), ct_rest, step as nat)
                        implies body_cipher_rel(alg, key, nonce, src, #[trigger] (out@ + ct_rest), 0) by {
                    let mid = sealed@ + ct_rest;
                    assert(mid.subrange(0, BLOCK_SIZE + 16) =~= sealed@);
                    assert(mid.skip(BLOCK_SIZE + 16) =~= ct_rest);
                    assert(src.skip(pos_old).subrange(0, BLOCK_SIZE as int)
                        =~= src.subrange(pos_old, pos_old + BLOCK_SIZE));
                    assert(src.skip(pos_old).skip(BLOCK_SIZE as int) =~= src.skip(pos as int));
                    assert(src.skip(pos_old).len() >= BLOCK_SIZE);
                    assert(body_cipher_rel(alg, key, nonce, src.skip(pos_old), mid, step_old));
                    assert(out_old + mid =~= out@ + ct_rest);
                }
            }
        }
        proof {
            assert(BLOCK_SIZE == 1048576);
            assert(step * BLOCK_SIZE < 0x100000000);
            assert(step <= 0x0FFFFFFF);
        }
        let tail = vstd::slice::slice_subrange(source, pos, source.len());
        let sealed = stream.encrypt_last(tail);
        proof {
            assert(tail@ =~= source@.skip(pos as int));
            assert(body_cipher_rel(alg, key, nonce, source@.skip(pos as int), sealed@, step as nat));
        }
        let ghost out_old = out@;
        push_bytes(&mut out, sealed.as_slice());
        proof {
            assert(out@ =~= out_old + sealed@);
        }
        Ok(out)
    }
}

impl StreamDecryption {
    /// Decrypt a whole body in one pass, mirroring `encrypt_streams`:
    /// input chunks of a block plus tag as middle segments, the trailing
    /// chunk as the final segment. Succeeds exactly on bodies standing
    /// in the body-cipher relation to some plaintext, and returns that
    /// plaintext; any tag failure or malformed chunking is an
    /// authentication failure.
    #[verifier::rlimit(100)]
    #[verifier::loop_isolation(false)]
    pub fn decrypt_streams(self, input: &[u8]) -> (r: Result<Vec<u8>, Error>)
        requires
            self.counter() == 0,
            input@.len() < 0x100000000,
        ensures
            r matches Ok(p) ==> body_cipher_rel(self.algorithm(), self.key(), self.nonce(), p@, input@, 0),
            r matches Ok(p) ==> forall|pt: Seq<u8>|
                body_cipher_rel(self.algorithm(), self.key(), self.nonce(), pt, input@, 0) ==> pt == p@,
            r matches Err(e) ==> e == Error::AuthenticationFailed,
            r is Err ==> forall|pt: Seq<u8>|
                !body_cipher_rel(self.algorithm(), self.key(), self.nonce(), pt, input@, 0),
    {
        let ghost alg = self.algorithm();
        let ghost key = self.key();
        let ghost nonce = self.nonce();
        let mut stream = self;
        let mut out: Vec<u8> = Vec::new();
        let mut off: usize = 0;
        let mut step: u32 = 0;
        proof {
            assert forall|ptr: Seq<u8>|
                body_cipher_rel(alg, key, nonce, ptr, input@.skip(0), 0)
                    implies body_cipher_rel(alg, key, nonce, #[trigger] (out@ + ptr), input@, 0) by {
                assert(input@.skip(0) =~= input@);
                assert(out@ + ptr =~= ptr);
            }
            assert forall|pt: Seq<u8>| #[trigger] body_cipher_rel(alg, key, nonce, pt, input@, 0)
                implies {
                &&& pt.len() >= out@.len()
                &&& pt.subrange(0, out@.len() as int) == out@
                &&& body_cipher_rel(alg, key, nonce, pt.skip(out@.len() as int), input@.skip(0), 0)
            } by {
                assert(pt.subrange(0, 0) =~= out@);
                assert(pt.skip(0) =~= pt);
                assert(input@.skip(0) =~= input@);
            }
        }
        while input.len() - off > BLOCK_SIZE + 16
            invariant
                stream.algorithm() == alg,
                stream.key() == key,
                stream.nonce() == nonce,
                stream.counter() == step,
                off == 1048592 * step,
                off <= input@.len() < 0x100000000,
                out@.len() == 1048576 * step,
                forall|ptr: Seq<u8>|
                    body_cipher_rel(alg, key, nonce, ptr, input@.skip(off as int), step as nat)
                        ==> body_cipher_rel(alg, key, nonce, #[trigger] (out@ + ptr), input@, 0),
                forall|pt: Seq<u8>| #[trigger] body_cipher_rel(alg, key, nonce, pt, input@, 0) ==> {
                    &&& pt.len() >= out@.len()
                    &&& pt.subrange(0, out@.len() as int) == out@
                    &&& body_cipher_rel(
                        alg,
                        key,
                        nonce,
                        pt.skip(out@.len() as int),
                        input@.skip(off as int),
                        step as nat,
                    )
                },
            decreases input@.len() - off,
        {
            proof {
                assert(BLOCK_SIZE == 1048576);
                assert(step < 0x0FFFFFFF);
            }
            let chunk = vstd::slice::slice_subrange(input, off, off + (BLOCK_SIZE + 16));
            let ghost rem = input@.skip(off as int);
            let ghost out_old = out@;
            let ghost off_old = off as int;
            let ghost step_old = step as nat;
            match stream.decrypt_next(chunk) {
                Err(e) => {
                    proof {
                        assert(rem.subrange(0, BLOCK_SIZE + 16) =~= chunk@);
                        assert forall|pt: Seq<u8>|
                            !body_cipher_rel(alg, key, nonce, pt, input@, 0) by {
                            if body_cipher_rel(alg, key, nonce, pt, input@, 0) {
                                let ptr = pt.skip(out_old.len() as int);
                                assert(body_cipher_rel(alg, key, nonce, ptr, rem, step_old));
                                if ptr.len() < BLOCK_SIZE {
                                    assert(rem.len() == ptr.len() + 16);
                                    assert(false);
                                } else {
                                    assert(chunk@ == stream_seal(
                                        alg,
                                        key,
                                        nonce,
                                        step_old,
                                        false,
                                        ptr.subrange(0, BLOCK_SIZE as int),
                                    ));
                                    assert(false);
                                }
                            }
                        }
                    }
                    zeroize_vec(&mut out);
                    return Err(Error::AuthenticationFailed);
                }
                Ok(mut p) => {
                    push_bytes(&mut out, p.as_slice());
                    off = off + (BLOCK_SIZE + 16);
                    step = step + 1;
                    proof {
                        let src = input@;
                        assert(rem.subrange(0, BLOCK_SIZE + 16) =~= chunk@);
                        assert(rem.skip(BLOCK_SIZE + 16) =~= src.skip(off as int));
                        assert forall|ptr: Seq<u8>|
                            body_cipher_rel(alg, key, nonce, ptr, src.skip(off as int), step as nat)
                                implies body_cipher_rel(
                                alg,
                                key,
                                nonce,
                                #[trigger] (out@ + ptr),
                                src,
                                0,
                            ) by {
                            let mid = p@ + ptr;
                            assert(mid.subrange(0, BLOCK_SIZE as int) =~= p@);
                            assert(mid.skip(BLOCK_SIZE as int) =~= ptr);
                            assert(mid.len() >= BLOCK_SIZE);
                            assert(body_cipher_rel(alg, key, nonce, mid, rem, step_old));
                            assert(out_old + mid =~= out@ + ptr);
                        }
                        assert forall|pt: Seq<u8>| #[trigger] body_cipher_rel(alg, key, nonce, pt, src, 0)
                            implies {
                            &&& pt.len() >= out@.len()
                            &&& pt.subrange(0, out@.len() as int) == out@
                            &&& body_cipher_rel(
                                alg,
                                key,
                                nonce,
                                pt.skip(out@.len() as int),
                                src.skip(off as int),
                                step as nat,
                            )
                        } by {
                            let ptr = pt.skip(out_old.len() as int);
                            assert(body_cipher_rel(alg, key, nonce, ptr, rem, step_old));
                            if ptr.len() < BLOCK_SIZE {
                                assert(rem.len() == ptr.len() + 16);
                                assert(false);
                            }
                            assert(chunk@ == stream_seal(
                                alg,
                                key,
                                nonce,
                                step_old,
                                false,
                                ptr.subrange(0, BLOCK_SIZE as int),
                            ));
                            assert(ptr.subrange(0, BLOCK_SIZE as int) == p@);
                            assert(pt.subrange(0, out@.len() as int)
                                =~= pt.subrange(0, out_old.len() as int)
                                + ptr.subrange(0, BLOCK_SIZE as int));
                            assert(ptr.skip(BLOCK_SIZE as int) =~= pt.skip(out@.len() as int));
                        }
                    }
                    zeroize_vec(&mut p);
                }
            }
        }
        let remaining = input.len() - off;
        if remaining < 16 || remaining == BLOCK_SIZE + 16 {
            proof {
                let src = input@;
                let rem = src.skip(off as int);
                assert forall|pt: Seq<u8>| !body_cipher_rel(alg, key, nonce, pt, src, 0) by {
                    if body_cipher_rel(alg, key, nonce, pt, src, 0) {
                        let ptr = pt.skip(out@.len() as int);
                        assert(body_cipher_rel(alg, key, nonce, ptr, rem, step as nat));
                        if ptr.len() < BLOCK_SIZE {
                            assert(rem.len() == ptr.len() + 16);
                            assert(false);
                        } else {
                            let ptr2 = ptr.skip(BLOCK_SIZE as int);
                            assert(body_cipher_rel(
                                alg,
                                key,
                                nonce,
                                ptr2,
                                rem.skip(BLOCK_SIZE + 16),
                                step as nat + 1,
                            ));
                            assert(rem.skip(BLOCK_SIZE + 16).len() == 0);
                            assert(false);
                        }
                    }
                }
            }
            zeroize_vec(&mut out);
            return Err(Error::AuthenticationFailed);
        }
        proof {
            assert(BLOCK_SIZE == 1048576);
            assert(step <= 0x0FFFFFFF);
        }
        let tail = vstd::slice::slice_subrange(input, off, input.len());
        let ghost rem = input@.skip(off as int);
        let ghost out_old = out@;
        match raw_decrypt_last(stream, tail) {
            Err(e) => {
                proof {
                    assert(tail@ =~= rem);
                    assert forall|pt: Seq<u8>| !body_cipher_rel(alg, key, nonce, pt, input@, 0) by {
                        if body_cipher_rel(alg, key, nonce, pt, input@, 0) {
                            let ptr = pt.skip(out_old.len() as int);
                            assert(body_cipher_rel(alg, key, nonce, ptr, rem, step as nat));
                            if ptr.len() >= BLOCK_SIZE {
                                assert(rem.len() >= BLOCK_SIZE + 16);
                                assert(false);
                            } else {
                                assert(tail@ == stream_seal(alg, key, nonce, step as nat, true, ptr));
                                assert(false);
                            }
                        }
                    }
                }
                zeroize_vec(&mut out);
                Err(Error::AuthenticationFailed)
            }
            Ok(mut p) => {
                push_bytes(&mut out, p.as_slice());
                proof {
                    assert(tail@ =~= rem);
                    assert(p@.len() + 16 == rem.len());
                    assert(body_cipher_rel(alg, key, nonce, p@, rem, step as nat));
                    assert(out@ =~= out_old + p@);
                    assert(body_cipher_rel(alg, key, nonce, out@, input@, 0));
                    assert forall|pt: Seq<u8>|
                        body_cipher_rel(alg, key, nonce, pt, input@, 0) implies pt == out@ by {
                        let ptr = pt.skip(out_old.len() as int);
                        assert(body_cipher_rel(alg, key, nonce, ptr, rem, step as nat));
                        if ptr.len() >= BLOCK_SIZE {
                            assert(rem.len() >= BLOCK_SIZE + 16);
                            assert(false);
                        }
                        assert(tail@ == stream_seal(alg, key, nonce, step as nat, true, ptr));
                        assert(ptr == p@);
                        assert(pt =~= pt.subrange(0, out_old.len() as int) + ptr);
                    }
                }
                zeroize_vec(&mut p);
                Ok(out)
            }
        }
    }

}


/// A body standing in the cipher relation to a plaintext carries one
/// 16-byte tag per full block and one for the final segment.
pub proof fn lemma_body_cipher_len(
    alg: Algorithm,
    key: Seq<u8>,
    nonce: Seq<u8>,
    pt: Seq<u8>,
    ct: Seq<u8>,
    position: nat,
)
    requires
        body_cipher_rel(alg, key, nonce, pt, ct, position),
    ensures
        ct.len() == pt.len() + 16 * (pt.len() as int / (BLOCK_SIZE as int) + 1),
    decreases pt.len(),
{
    if pt.len() < BLOCK_SIZE {
        assert(pt.len() as int / (BLOCK_SIZE as int) == 0);
    } else {
        lemma_body_cipher_len(
            alg,
            key,
            nonce,
            pt.skip(BLOCK_SIZE as int),
            ct.skip(BLOCK_SIZE + 16),
            position + 1,
        );
        assert(pt.skip(BLOCK_SIZE as int).len() == pt.len() - BLOCK_SIZE);
        assert((pt.len() - BLOCK_SIZE) / (BLOCK_SIZE as int) == pt.len() as int / (BLOCK_SIZE as int) - 1);
    }
}

} // verus!
