//! Streaming authenticated-encryption core: converts byte streams into
//! self-describing encrypted files and back. An encrypted file is a
//! 228-byte header (magic, version, cipher tags, padded nonce, two
//! password-protected key slots) followed by the body, encrypted block
//! by block under a random master key that a password-derived key wraps
//! into a slot.

use vstd::prelude::*;

pub mod backend;
pub mod encryptor;
pub mod error;
pub mod header;
pub mod masterkey;
pub mod primitives;
pub mod stream;

verus! {

use crate::backend::{derive_key, derived_key_of, aes_decrypt, aes_encrypt, one_shot_seal,
    xchacha_decrypt, xchacha_encrypt, zeroize_key};
use crate::encryptor::StreamEncryptor;
use crate::error::Error;
use crate::header::{header_wf, keyslot_wf, spec_header_check, spec_parsed_header,
    lemma_header_ext, lemma_parsed_header_unique, header_eq, keyslot_eq, push_bytes, FileHeader,
    FileHeaderVersion, FileKeyslot, FileKeyslotVersion};
use crate::masterkey::{spec_wrap, unwrap_master_key, wrap_master_key};
use crate::primitives::{Algorithm, HashingAlgorithm, Mode, spec_nonce_len, BLOCK_SIZE};
use crate::stream::{body_cipher_rel, lemma_body_cipher_len, StreamDecryption, StreamEncryption};

/// Key slot `k` holds the master key `mk` wrapped under the key that the
/// password derives with the slot's salt.
pub open spec fn slot_wraps(k: FileKeyslot, pw: Seq<u8>, mk: Seq<u8>) -> bool {
    &&& mk.len() == 32
    &&& k.master_key@ == spec_wrap(
        k.algorithm,
        k.mode,
        derived_key_of(pw, k.salt@),
        k.nonce@,
        mk,
    )
}

/// The body of a file under the chosen mode: one one-shot seal in
/// `Memory` mode, the block-by-block stream relation in `Stream` mode.
pub open spec fn spec_body_rel(
    alg: Algorithm,
    mode: Mode,
    key: Seq<u8>,
    nonce: Seq<u8>,
    pt: Seq<u8>,
    ct: Seq<u8>,
) -> bool {
    match mode {
        Mode::Stream => body_cipher_rel(alg, key, nonce, pt, ct, 0),
        Mode::Memory => ct == one_shot_seal(alg, key, nonce, pt) && ct.len() == pt.len() + 16,
    }
}

/// `ct` is a complete encrypted file of plaintext `pt`: its prefix
/// parses to the header `h`, slot `j` wraps the master key `mk` for the
/// password, and the rest of `ct` is the body under `mk`.
pub open spec fn file_opens_at(
    ct: Seq<u8>,
    pw: Seq<u8>,
    pt: Seq<u8>,
    h: FileHeader,
    mk: Seq<u8>,
    j: int,
) -> bool {
    &&& ct.len() >= 228
    &&& spec_header_check(ct) is Ok
    &&& header_wf(h)
    &&& spec_parsed_header(h, ct)
    &&& 0 <= j < h.keyslots@.len()
    &&& slot_wraps(h.keyslots@[j], pw, mk)
    &&& spec_body_rel(h.algorithm, h.mode, mk, h.nonce@, pt, ct.skip(228))
}

/// `ct` opens with the password to plaintext `pt`: some slot wraps a
/// master key for the password, no earlier slot does, and the body
/// decrypts under that key.
pub open spec fn file_opens_with(ct: Seq<u8>, pw: Seq<u8>, pt: Seq<u8>) -> bool {
    exists|h: FileHeader, mk: Seq<u8>, j: int|
        {
            &&& #[trigger] file_opens_at(ct, pw, pt, h, mk, j)
            &&& forall|i: int, m: Seq<u8>| 0 <= i < j ==> !(#[trigger] slot_wraps(h.keyslots@[i], pw, m))
        }
}

/// Length of an encrypted body for a plaintext of `n` bytes.
pub open spec fn spec_body_len(mode: Mode, n: int) -> int {
    match mode {
        Mode::Memory => n + 16,
        Mode::Stream => n + 16 * (n / (BLOCK_SIZE as int) + 1),
    }
}

/// Sample a fresh random nonce of the policy length for the context.
fn generate_nonce(algorithm: Algorithm, mode: Mode) -> (r: Vec<u8>)
    ensures
        r@.len() == spec_nonce_len(algorithm, mode),
{
    let full: [u8; 24] = rand::random();
    let mut v = vstd::slice::slice_to_vec(full.as_slice());
    let n = algorithm.nonce_len(mode);
    v.truncate(n);
    v
}

/// Try each slot of the header in order against the password: derive the
/// slot key, attempt the unwrap, stop at the first success. On success
/// the returned key is the one the slot wraps and every earlier slot
/// wraps nothing for this password; on failure no slot does.
fn try_keyslots(header: &FileHeader, password: &[u8]) -> (r: Result<([u8; 32], usize), Error>)
    requires
        header_wf(*header),
        password@.len() <= 0xFFFFFFFF,
    ensures
        r matches Ok(pair) ==> {
            &&& (pair.1 as int) < header.keyslots@.len()
            &&& slot_wraps(header.keyslots@[pair.1 as int], password@, pair.0@)
            &&& forall|m: Seq<u8>|
                slot_wraps(header.keyslots@[pair.1 as int], password@, m) ==> m == pair.0@
            &&& forall|i: int, m: Seq<u8>| 0 <= i < pair.1 as int ==> !(#[trigger] slot_wraps(header.keyslots@[i], password@, m))
        },
        r matches Err(e) ==> e == Error::NoValidKeyslot,
        r is Err ==> forall|i: int, m: Seq<u8>| 0 <= i < header.keyslots@.len() ==> !(#[trigger] slot_wraps(header.keyslots@[i], password@, m)),
{
    let mut idx: usize = 0;
    while idx < header.keyslots.len()
        invariant
            header_wf(*header),
            password@.len() <= 0xFFFFFFFF,
            idx <= header.keyslots@.len(),
            forall|i: int, m: Seq<u8>| 0 <= i < idx as int ==> !(#[trigger] slot_wraps(header.keyslots@[i], password@, m)),
        decreases header.keyslots@.len() - idx,
    {
        let slot = &header.keyslots[idx];
        let mut derived = derive_key(password, &slot.salt);
        proof {
            assert(keyslot_wf(header.keyslots@[idx as int]));
        }
        match unwrap_master_key(
            &slot.master_key,
            &derived,
            slot.algorithm,
            slot.mode,
            slot.nonce.as_slice(),
        ) {
            Ok(mk) => {
                zeroize_key(&mut derived);
                return Ok((mk, idx));
            },
            Err(e) => {
                zeroize_key(&mut derived);
                idx = idx + 1;
            },
        }
    }
    Err(Error::NoValidKeyslot)
}

/// Encrypt a byte stream into a self-describing file: a fresh random
/// master key and nonces, one key slot wrapping the master key under the
/// password, the 228-byte header, and the body encrypted block by block.
/// All key material held here is wiped before returning.
pub fn encrypt_file(
    password: &[u8],
    plaintext: &[u8],
    algorithm: Algorithm,
    mode: Mode,
    hashing_algorithm: HashingAlgorithm,
) -> (r: Result<Vec<u8>, Error>)
    requires
        password@.len() <= 0xFFFFFFFF,
        plaintext@.len() < 0x80000000,
    ensures
        r is Ok,
        r matches Ok(ct) ==> file_opens_with(ct@, password@, plaintext@),
        r matches Ok(ct) ==> ct@.len() == 228 + spec_body_len(mode, plaintext@.len() as int),
{
    let salt: [u8; 16] = rand::random();
    let mut master_key: [u8; 32] = rand::random();
    let slot_nonce = generate_nonce(algorithm, mode);
    let body_nonce = generate_nonce(algorithm, mode);
    let mut derived = derive_key(password, &salt);
    let ghost mk = master_key@;
    let wrapped = match wrap_master_key(&master_key, &derived, algorithm, mode,
        slot_nonce.as_slice()) {
        Ok(w) => w,
        Err(e) => {
            proof {
                assert(false);
            }
            return Err(e);
        },
    };
    let keyslot = FileKeyslot {
        version: FileKeyslotVersion::V1,
        algorithm,
        hashing_algorithm,
        mode,
        salt,
        nonce: slot_nonce,
        master_key: wrapped,
    };
    let mut keyslots: Vec<FileKeyslot> = Vec::new();
    keyslots.push(keyslot);
    let header = FileHeader {
        version: FileHeaderVersion::V1,
        algorithm,
        mode,
        nonce: body_nonce,
        keyslots,
    };
    proof {
        assert(header_wf(header));
    }
    let mut out = header.serialize();
    let body: Vec<u8> = match mode {
        Mode::Memory => match algorithm {
            Algorithm::XChaCha20Poly1305 => xchacha_encrypt(
                &master_key,
                header.nonce.as_slice(),
                plaintext,
            ),
            Algorithm::Aes256Gcm => aes_encrypt(&master_key, header.nonce.as_slice(), plaintext),
        },
        Mode::Stream => {
            let s = match StreamEncryption::init(&master_key, header.nonce.as_slice(), algorithm) {
                Ok(s) => s,
                Err(e) => {
                    proof {
                        assert(false);
                    }
                    return Err(e);
                },
            };
            let source = vstd::slice::slice_to_vec(plaintext);
            let file_size = plaintext.len() as u32;
            let mut pump = StreamEncryptor::new(s, source, file_size);
            proof {
                assert(BLOCK_SIZE == 1048576);
            }
            while pump.current_step < pump.total_step
                invariant
                    pump.wf(),
                    pump.stream_object.algorithm() == algorithm,
                    pump.stream_object.key() == mk,
                    pump.stream_object.nonce() == header.nonce@,
                    pump.source@ == plaintext@,
                    pump.total_step as int == plaintext@.len() as int / (BLOCK_SIZE as int),
                    plaintext@.len() < 0x80000000,
                decreases pump.total_step - pump.current_step,
            {
                proof {
                    assert(BLOCK_SIZE == 1048576);
                    assert(pump.total_step as int * 1048576 <= plaintext@.len() as int);
                }
                match pump.step() {
                    Ok(u) => {},
                    Err(e) => {
                        proof {
                            assert(false);
                        }
                        return Err(e);
                    },
                }
            }
            match pump.finalize() {
                Ok(b) => b,
                Err(e) => {
                    proof {
                        assert(false);
                    }
                    return Err(e);
                },
            }
        },
    };
    let ghost body_view = body@;
    push_bytes(&mut out, body.as_slice());
    zeroize_key(&mut master_key);
    zeroize_key(&mut derived);
    proof {
        assert(out@.subrange(0, 228) =~= crate::header::spec_header_bytes(header));
        lemma_header_ext(header, out@);
        assert(out@.skip(228) =~= body_view);
        assert(slot_wraps(header.keyslots@[0], password@, mk));
        if mode == Mode::Stream {
            lemma_body_cipher_len(algorithm, mk, header.nonce@, plaintext@, body_view, 0);
        }
        assert(file_opens_at(out@, password@, plaintext@, header, mk, 0));
        assert(file_opens_with(out@, password@, plaintext@));
    }
    Ok(out)
}

/// Decrypt a self-describing encrypted file with a password: parse the
/// header, recover the master key by trying each slot in order, and
/// decrypt the body. Whenever the file opens with the password to some
/// plaintext, exactly that plaintext is returned; a file shorter than a
/// header is rejected as having no valid magic.
pub fn decrypt_file(password: &[u8], ciphertext: &[u8]) -> (r: Result<Vec<u8>, Error>)
    requires
        password@.len() <= 0xFFFFFFFF,
        ciphertext@.len() < 0x100000000,
    ensures
        forall|pt: Seq<u8>|
            file_opens_with(ciphertext@, password@, pt) ==> (r matches Ok(p) && p@ == pt),
        r matches Ok(p) ==> exists|h: FileHeader, mk: Seq<u8>, j: int|
            file_opens_at(ciphertext@, password@, p@, h, mk, j),
        r matches Err(e) ==> (e == Error::InvalidMagic || e == Error::UnsupportedVersion || e
            == Error::InvalidTag || e == Error::NonZeroPadding || e == Error::NoValidKeyslot || e
            == Error::AuthenticationFailed),
        ciphertext@.len() < 228 ==> r == Err::<Vec<u8>, Error>(Error::InvalidMagic),
{
    if ciphertext.len() < 228 {
        return Err(Error::InvalidMagic);
    }
    let header = match FileHeader::parse(ciphertext) {
        Ok(h) => h,
        Err(e) => {
            proof {
                assert forall|pt: Seq<u8>|
                    !file_opens_with(ciphertext@, password@, pt) by {
                    if file_opens_with(ciphertext@, password@, pt) {
                        let (h0, mk0, j0) = choose|h0: FileHeader, mk0: Seq<u8>, j0: int|
                            {
                                &&& #[trigger] file_opens_at(
                                    ciphertext@,
                                    password@,
                                    pt,
                                    h0,
                                    mk0,
                                    j0,
                                )
                                &&& forall|i: int, m: Seq<u8>| 0 <= i < j0 ==> !(#[trigger] slot_wraps(h0.keyslots@[i], password@, m))
                            };
                        assert(false);
                    }
                }
            }
            return Err(e);
        },
    };
    let trial = try_keyslots(&header, password);
    let (mut master_key, found) = match trial {
        Ok(pair) => pair,
        Err(e) => {
            proof {
                assert forall|pt: Seq<u8>|
                    !file_opens_with(ciphertext@, password@, pt) by {
                    if file_opens_with(ciphertext@, password@, pt) {
                        let (h0, mk0, j0) = choose|h0: FileHeader, mk0: Seq<u8>, j0: int|
                            {
                                &&& #[trigger] file_opens_at(
                                    ciphertext@,
                                    password@,
                                    pt,
                                    h0,
                                    mk0,
                                    j0,
                                )
                                &&& forall|i: int, m: Seq<u8>| 0 <= i < j0 ==> !(#[trigger] slot_wraps(h0.keyslots@[i], password@, m))
                            };
                        lemma_parsed_header_unique(header, h0, ciphertext@);
                        assert(keyslot_eq(header.keyslots@[j0], h0.keyslots@[j0]));
                        assert(slot_wraps(header.keyslots@[j0], password@, mk0));
                        assert(false);
                    }
                }
            }
            return Err(e);
        },
    };
    let body = vstd::slice::slice_subrange(ciphertext, 228, ciphertext.len());
    let opened: Result<Vec<u8>, Error> = match header.mode {
        Mode::Memory => match header.algorithm {
            Algorithm::XChaCha20Poly1305 => xchacha_decrypt(
                &master_key,
                header.nonce.as_slice(),
                body,
            ),
            Algorithm::Aes256Gcm => aes_decrypt(&master_key, header.nonce.as_slice(), body),
        },
        Mode::Stream => match StreamDecryption::init(
            &master_key,
            header.nonce.as_slice(),
            header.algorithm,
        ) {
            Ok(s) => s.decrypt_streams(body),
            Err(e) => {
                proof {
                    assert(false);
                }
                return Err(Error::AuthenticationFailed);
            },
        },
    };
    proof {
        assert forall|pt: Seq<u8>|
            file_opens_with(ciphertext@, password@, pt) implies (opened matches Ok(p) && p@
            == pt) by {
            let (h0, mk0, j0) = choose|h0: FileHeader, mk0: Seq<u8>, j0: int|
                {
                    &&& #[trigger] file_opens_at(ciphertext@, password@, pt, h0, mk0, j0)
                    &&& forall|i: int, m: Seq<u8>| 0 <= i < j0 ==> !(#[trigger] slot_wraps(h0.keyslots@[i], password@, m))
                };
            lemma_parsed_header_unique(header, h0, ciphertext@);
            assert(header_eq(header, h0));
            assert(keyslot_eq(header.keyslots@[j0], h0.keyslots@[j0]));
            assert(slot_wraps(header.keyslots@[j0], password@, mk0));
            if (found as int) < j0 {
                assert(keyslot_eq(header.keyslots@[found as int], h0.keyslots@[found as int]));
                assert(slot_wraps(h0.keyslots@[found as int], password@, master_key@));
                assert(false);
            }
            if (found as int) > j0 {
                assert(false);
            }
            assert(found as int == j0);
            assert(master_key@ == mk0);
            assert(body@ == ciphertext@.skip(228));
            assert(spec_body_rel(header.algorithm, header.mode, mk0, header.nonce@, pt, body@));
        }
    }
    let ghost mkv = master_key@;
    zeroize_key(&mut master_key);
    match opened {
        Ok(p) => {
            proof {
                assert(body@ =~= ciphertext@.skip(228));
                assert(file_opens_at(
                    ciphertext@,
                    password@,
                    p@,
                    header,
                    mkv,
                    found as int,
                ));
            }
            Ok(p)
        },
        Err(e) => {
            proof {
                assert(e == Error::Decrypt || e == Error::AuthenticationFailed);
            }
            Err(Error::AuthenticationFailed)
        },
    }
}

} // verus!
