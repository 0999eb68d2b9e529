//! Trusted bindings to the outside cryptography crates: the password
//! hash, the one-shot and STREAM AEAD calls, random sampling, and
//! zeroization. Every verified contract about ciphertext is stated over
//! the named results declared here.

use vstd::prelude::*;

use crate::error::Error;
use crate::primitives::Algorithm;

verus! {

/// The 32-byte key that the password hash derives from a password and a
/// 16-byte salt, at this crate's fixed Argon2id parameters.
pub uninterp spec fn derived_key_of(password: Seq<u8>, salt: Seq<u8>) -> Seq<u8>;

/// What XChaCha20Poly1305 one-shot encryption, with empty associated
/// data, produces from a key, a 24-byte nonce and a plaintext.
pub uninterp spec fn xchacha_seal(key: Seq<u8>, nonce: Seq<u8>, pt: Seq<u8>) -> Seq<u8>;

/// What AES-256-GCM one-shot encryption, with empty associated data,
/// produces from a key, a 12-byte nonce and a plaintext.
pub uninterp spec fn aes_seal(key: Seq<u8>, nonce: Seq<u8>, pt: Seq<u8>) -> Seq<u8>;

/// What the 31-bit little-endian STREAM construction over
/// XChaCha20Poly1305 produces for one segment: key, 20-byte base nonce,
/// segment position, last-segment flag, and the segment plaintext.
pub uninterp spec fn xchacha_stream_seal(
    key: Seq<u8>,
    nonce: Seq<u8>,
    position: nat,
    last: bool,
    pt: Seq<u8>,
) -> Seq<u8>;

/// What the 31-bit little-endian STREAM construction over AES-256-GCM
/// produces for one segment: key, 8-byte base nonce, segment position,
/// last-segment flag, and the segment plaintext.
pub uninterp spec fn aes_stream_seal(
    key: Seq<u8>,
    nonce: Seq<u8>,
    position: nat,
    last: bool,
    pt: Seq<u8>,
) -> Seq<u8>;

/// One-shot sealing under the chosen algorithm.
pub open spec fn one_shot_seal(alg: Algorithm, key: Seq<u8>, nonce: Seq<u8>, pt: Seq<u8>) -> Seq<
    u8,
> {
    match alg {
        Algorithm::XChaCha20Poly1305 => xchacha_seal(key, nonce, pt),
        Algorithm::Aes256Gcm => aes_seal(key, nonce, pt),
    }
}

/// One STREAM segment sealed under the chosen algorithm.
pub open spec fn stream_seal(
    alg: Algorithm,
    key: Seq<u8>,
    nonce: Seq<u8>,
    position: nat,
    last: bool,
    pt: Seq<u8>,
) -> Seq<u8> {
    match alg {
        Algorithm::XChaCha20Poly1305 => xchacha_stream_seal(key, nonce, position, last, pt),
        Algorithm::Aes256Gcm => aes_stream_seal(key, nonce, position, last, pt),
    }
}

/// Relies on argon2's `Argon2::hash_password_into` with the crate's
/// default Argon2id parameters: for a 16-byte salt, a 32-byte output and
/// a password no longer than the crate's limit it always fills the
/// output, and the result depends on the password and salt alone.
#[verifier::external_body]
pub fn derive_key(password: &[u8], salt: &[u8; 16]) -> (r: [u8; 32])
    requires
        password@.len() <= 0xFFFFFFFF,
    ensures
        r@ == derived_key_of(password@, salt@),
{
    let mut out = [0u8; 32];
    let _ = argon2::Argon2::default().hash_password_into(password, salt, &mut out);
    out
}

/// Relies on rand's `random`, which draws a fresh value from the thread
/// generator. Nothing is promised of the value.
pub assume_specification<T>[ rand::random::<T> ]() -> (r: T)
    where
        rand::distributions::Standard: rand::distributions::Distribution<T>,
;

/// Relies on zeroize's `Zeroize` for `Vec<u8>`: the buffer's bytes are
/// overwritten with zero through writes the compiler may not elide, and
/// the vector is cleared.
#[verifier::external_body]
pub fn zeroize_vec(buf: &mut Vec<u8>)
    ensures
        final(buf)@.len() == 0,
{
    zeroize::Zeroize::zeroize(buf)
}

/// Relies on zeroize's `Zeroize` for `[u8; 32]`: every byte is
/// overwritten with zero through writes the compiler may not elide.
#[verifier::external_body]
pub fn zeroize_key(key: &mut [u8; 32])
    ensures
        forall|i: int| 0 <= i < 32 ==> final(key)@[i] == 0,
{
    zeroize::Zeroize::zeroize(key)
}

/// Relies on chacha20poly1305's XChaCha20Poly1305 with aead's
/// `Aead::encrypt` (empty associated data): a 24-byte nonce and a
/// plaintext below the cipher's limit always seal, appending a 16-byte
/// tag, and the result depends on key, nonce and plaintext alone.
#[verifier::external_body]
pub fn xchacha_encrypt(key: &[u8; 32], nonce: &[u8], pt: &[u8]) -> (r: Vec<u8>)
    requires
        nonce@.len() == 24,
        pt@.len() <= 0x80000000,
    ensures
        r@ == xchacha_seal(key@, nonce@, pt@),
        r@.len() == pt@.len() + 16,
{
    let cipher = <chacha20poly1305::XChaCha20Poly1305 as aead::KeyInit>::new_from_slice(
        key,
    ).unwrap();
    aead::Aead::encrypt(&cipher, aead::generic_array::GenericArray::from_slice(nonce), pt).unwrap()
}

/// Relies on aes-gcm's Aes256Gcm with aead's `Aead::encrypt` (empty
/// associated data): a 12-byte nonce and a plaintext below the cipher's
/// limit always seal, appending a 16-byte tag, and the result depends on
/// key, nonce and plaintext alone.
#[verifier::external_body]
pub fn aes_encrypt(key: &[u8; 32], nonce: &[u8], pt: &[u8]) -> (r: Vec<u8>)
    requires
        nonce@.len() == 12,
        pt@.len() <= 0x80000000,
    ensures
        r@ == aes_seal(key@, nonce@, pt@),
        r@.len() == pt@.len() + 16,
{
    let cipher = <aes_gcm::Aes256Gcm as aead::KeyInit>::new_from_slice(key).unwrap();
    aead::Aead::encrypt(&cipher, aead::generic_array::GenericArray::from_slice(nonce), pt).unwrap()
}

/// Relies on chacha20poly1305's XChaCha20Poly1305 with aead's
/// `Aead::decrypt` (empty associated data): it verifies the tag and
/// succeeds exactly on ciphertexts sealed under the same key and nonce,
/// returning the plaintext that was sealed.
#[verifier::external_body]
pub fn xchacha_decrypt(key: &[u8; 32], nonce: &[u8], ct: &[u8]) -> (r: Result<Vec<u8>, Error>)
    requires
        nonce@.len() == 24,
    ensures
        r matches Ok(p) ==> ct@ == xchacha_seal(key@, nonce@, p@) && p@.len() + 16 == ct@.len(),
        r matches Ok(p) ==> forall|q: Seq<u8>| ct@ == xchacha_seal(key@, nonce@, q) ==> q == p@,
        r matches Err(e) ==> e == Error::Decrypt,
        r is Err ==> forall|q: Seq<u8>| ct@ != xchacha_seal(key@, nonce@, q),
{
    let cipher = <chacha20poly1305::XChaCha20Poly1305 as aead::KeyInit>::new_from_slice(
        key,
    ).unwrap();
    aead::Aead::decrypt(&cipher, aead::generic_array::GenericArray::from_slice(nonce), ct).map_err(
        |_| Error::Decrypt,
    )
}

/// Relies on aes-gcm's Aes256Gcm with aead's `Aead::decrypt` (empty
/// associated data): it verifies the tag and succeeds exactly on
/// ciphertexts sealed under the same key and nonce, returning the
/// plaintext that was sealed.
#[verifier::external_body]
pub fn aes_decrypt(key: &[u8; 32], nonce: &[u8], ct: &[u8]) -> (r: Result<Vec<u8>, Error>)
    requires
        nonce@.len() == 12,
    ensures
        r matches Ok(p) ==> ct@ == aes_seal(key@, nonce@, p@) && p@.len() + 16 == ct@.len(),
        r matches Ok(p) ==> forall|q: Seq<u8>| ct@ == aes_seal(key@, nonce@, q) ==> q == p@,
        r matches Err(e) ==> e == Error::Decrypt,
        r is Err ==> forall|q: Seq<u8>| ct@ != aes_seal(key@, nonce@, q),
{
    let cipher = <aes_gcm::Aes256Gcm as aead::KeyInit>::new_from_slice(key).unwrap();
    aead::Aead::decrypt(&cipher, aead::generic_array::GenericArray::from_slice(nonce), ct).map_err(
        |_| Error::Decrypt,
    )
}

} // verus!
