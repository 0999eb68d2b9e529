//! The error taxonomy of the encryption core. No failure is silently
//! recovered; every variant aborts the operation that raised it.

use vstd::prelude::*;

verus! {

#[derive(Clone, Copy, Debug, PartialEq, Eq, Structural)]
pub enum Error {
    /// A nonce handed to `init` did not match the policy length.
    NonceLengthMismatch,
    /// A pump was stepped or finalized out of order.
    IncorrectStep,
    /// A pump's source ran dry while full blocks were still owed.
    ReadUnderflow,
    /// A sink accepted fewer bytes than the cipher produced.
    WriteMismatch,
    /// The AEAD refused to encrypt (the stream counter ran out).
    Encrypt,
    /// The AEAD refused a ciphertext; on decryption this is an
    /// authentication failure.
    Decrypt,
    /// The leading bytes of a header are not the magic sequence.
    InvalidMagic,
    /// A header or key-slot version tag is unknown.
    UnsupportedVersion,
    /// An algorithm or mode tag is unknown.
    InvalidTag,
    /// A padded nonce field carried non-zero bytes after the nonce.
    NonZeroPadding,
    /// No present key slot could be opened with the given password.
    NoValidKeyslot,
    /// An authentication tag of the file body did not verify.
    AuthenticationFailed,
}

} // verus!
