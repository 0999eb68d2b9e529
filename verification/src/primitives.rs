//! Cipher and hashing enumerations, length constants, and the nonce-length
//! policy shared by the streaming engine and the header codec.

use vstd::prelude::*;

verus! {

/// Plaintext block size of the streaming construction, in bytes.
pub const BLOCK_SIZE: usize = 1048576;

/// Length of the salt stored in a key slot.
pub const SALT_LEN: usize = 16;

/// Length of a wrapped master key: 32 key bytes plus the 16-byte tag.
pub const ENCRYPTED_MASTER_KEY_LEN: usize = 48;

/// Length of the authentication tag every AEAD call appends.
pub const AEAD_TAG_LEN: usize = 16;

/// The authenticated cipher that encrypts a file body or a key slot.
#[derive(Clone, Copy, Debug, PartialEq, Eq, Structural)]
pub enum Algorithm {
    XChaCha20Poly1305,
    Aes256Gcm,
}

/// Selects the nonce-length policy of the enclosing context: `Stream`
/// leaves room for the 32-bit counter and last-block flag that the
/// stream construction appends, `Memory` uses the cipher's full nonce.
#[derive(Clone, Copy, Debug, PartialEq, Eq, Structural)]
pub enum Mode {
    Stream,
    Memory,
}

/// Password-hash parameterisation used to derive a slot key.
#[derive(Clone, Copy, Debug, PartialEq, Eq, Structural)]
pub enum HashingAlgorithm {
    Argon2id,
}

/// Nonce length demanded of `algorithm` when used under `mode`.
pub open spec fn spec_nonce_len(algorithm: Algorithm, mode: Mode) -> int {
    match (algorithm, mode) {
        (Algorithm::XChaCha20Poly1305, Mode::Stream) => 20,
        (Algorithm::XChaCha20Poly1305, Mode::Memory) => 24,
        (Algorithm::Aes256Gcm, Mode::Stream) => 8,
        (Algorithm::Aes256Gcm, Mode::Memory) => 12,
    }
}

impl Algorithm {
    /// Nonce length this cipher demands under `mode`.
    pub fn nonce_len(&self, mode: Mode) -> (r: usize)
        ensures
            r as int == spec_nonce_len(*self, mode),
    {
        match (self, mode) {
            (Algorithm::XChaCha20Poly1305, Mode::Stream) => 20,
            (Algorithm::XChaCha20Poly1305, Mode::Memory) => 24,
            (Algorithm::Aes256Gcm, Mode::Stream) => 8,
            (Algorithm::Aes256Gcm, Mode::Memory) => 12,
        }
    }
}

} // verus!
