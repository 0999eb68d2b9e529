//! Wrapping and unwrapping of the master key for a key slot: the chosen
//! AEAD applied once over the 32-byte master key with empty associated
//! data, giving the fixed 48-byte slot ciphertext. An authentication
//! failure on unwrap is the sole signal of a wrong password or a
//! tampered slot.

use vstd::prelude::*;

use crate::backend::{aes_decrypt, aes_encrypt, one_shot_seal, stream_seal, xchacha_decrypt,
    xchacha_encrypt};
use crate::error::Error;
use crate::primitives::{Algorithm, Mode, spec_nonce_len};
use crate::stream::{StreamDecryption, StreamEncryption};

verus! {

/// The 48 bytes a key slot stores: the master key sealed under the
/// derived key. `Memory` mode seals in one shot with the cipher's full
/// nonce; `Stream` mode seals one terminal STREAM segment at position
/// zero with the shorter stream nonce.
pub open spec fn spec_wrap(
    alg: Algorithm,
    mode: Mode,
    dk: Seq<u8>,
    nonce: Seq<u8>,
    mk: Seq<u8>,
) -> Seq<u8> {
    match mode {
        Mode::Memory => one_shot_seal(alg, dk, nonce, mk),
        Mode::Stream => stream_seal(alg, dk, nonce, 0, true, mk),
    }
}

/// Copy a 48-byte vector into an array.
fn to_array48(v: &Vec<u8>) -> (r: [u8; 48])
    requires
        v@.len() == 48,
    ensures
        r@ == v@,
{
    let mut out = [0u8; 48];
    let mut i: usize = 0;
    while i < 48
        invariant
            0 <= i <= 48,
            v@.len() == 48,
            forall|j: int| 0 <= j < i ==> out@[j] == v@[j],
        decreases 48 - i,
    {
        out[i] = v[i];
        i = i + 1;
    }
    proof {
        assert(out@ =~= v@);
    }
    out
}

/// Copy a 32-byte vector into an array.
fn to_array32(v: &Vec<u8>) -> (r: [u8; 32])
    requires
        v@.len() == 32,
    ensures
        r@ == v@,
{
    let mut out = [0u8; 32];
    let mut i: usize = 0;
    while i < 32
        invariant
            0 <= i <= 32,
            v@.len() == 32,
            forall|j: int| 0 <= j < i ==> out@[j] == v@[j],
        decreases 32 - i,
    {
        out[i] = v[i];
        i = i + 1;
    }
    proof {
        assert(out@ =~= v@);
    }
    out
}

/// Seal the master key under a derived key for storage in a key slot.
/// Fails exactly when the nonce does not have the policy length.
pub fn wrap_master_key(
    master_key: &[u8; 32],
    derived_key: &[u8; 32],
    algorithm: Algorithm,
    mode: Mode,
    nonce: &[u8],
) -> (r: Result<[u8; 48], Error>)
    ensures
        r matches Ok(c) ==> nonce@.len() == spec_nonce_len(algorithm, mode) && c@ == spec_wrap(
            algorithm,
            mode,
            derived_key@,
            nonce@,
            master_key@,
        ),
        r matches Err(e) ==> e == Error::NonceLengthMismatch && nonce@.len() != spec_nonce_len(
            algorithm,
            mode,
        ),
{
    if nonce.len() != algorithm.nonce_len(mode) {
        return Err(Error::NonceLengthMismatch);
    }
    let sealed: Vec<u8> = match mode {
        Mode::Memory => match algorithm {
            Algorithm::XChaCha20Poly1305 => xchacha_encrypt(
                derived_key,
                nonce,
                master_key.as_slice(),
            ),
            Algorithm::Aes256Gcm => aes_encrypt(derived_key, nonce, master_key.as_slice()),
        },
        Mode::Stream => match StreamEncryption::init(derived_key, nonce, algorithm) {
            Ok(s) => s.encrypt_last(master_key.as_slice()),
            Err(e) => {
                proof {
                    assert(false);
                }
                return Err(Error::NonceLengthMismatch);
            },
        },
    };
    Ok(to_array48(&sealed))
}

/// Open a slot's 48-byte ciphertext with a derived key. Succeeds exactly
/// on slots sealed under that key, nonce, algorithm and mode, and then
/// returns the master key that was sealed.
pub fn unwrap_master_key(
    wrapped: &[u8; 48],
    derived_key: &[u8; 32],
    algorithm: Algorithm,
    mode: Mode,
    nonce: &[u8],
) -> (r: Result<[u8; 32], Error>)
    ensures
        r matches Ok(k) ==> nonce@.len() == spec_nonce_len(algorithm, mode) && wrapped@
            == spec_wrap(algorithm, mode, derived_key@, nonce@, k@),
        r matches Ok(k) ==> forall|m: Seq<u8>|
            wrapped@ == spec_wrap(algorithm, mode, derived_key@, nonce@, m) ==> m == k@,
        r matches Err(e) ==> e == Error::NonceLengthMismatch || e == Error::Decrypt,
        r matches Err(e) ==> (e == Error::NonceLengthMismatch <==> nonce@.len() != spec_nonce_len(
            algorithm,
            mode,
        )),
        r is Err && nonce@.len() == spec_nonce_len(algorithm, mode) ==> forall|m: Seq<u8>|
            wrapped@ != spec_wrap(algorithm, mode, derived_key@, nonce@, m),
{
    if nonce.len() != algorithm.nonce_len(mode) {
        return Err(Error::NonceLengthMismatch);
    }
    let opened: Result<Vec<u8>, Error> = match mode {
        Mode::Memory => match algorithm {
            Algorithm::XChaCha20Poly1305 => xchacha_decrypt(
                derived_key,
                nonce,
                wrapped.as_slice(),
            ),
            Algorithm::Aes256Gcm => aes_decrypt(derived_key, nonce, wrapped.as_slice()),
        },
        Mode::Stream => match StreamDecryption::init(derived_key, nonce, algorithm) {
            Ok(s) => s.decrypt_last(wrapped.as_slice()),
            Err(e) => {
                proof {
                    assert(false);
                }
                return Err(Error::NonceLengthMismatch);
            },
        },
    };
    match opened {
        Ok(p) => Ok(to_array32(&p)),
        Err(e) => Err(Error::Decrypt),
    }
}

} // verus!
