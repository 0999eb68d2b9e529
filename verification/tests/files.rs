use crypto_core::error::Error;
use crypto_core::header::{FileHeader, FileHeaderVersion, FileKeyslot, FileKeyslotVersion};
use crypto_core::masterkey::{unwrap_master_key, wrap_master_key};
use crypto_core::primitives::{Algorithm, HashingAlgorithm, Mode, BLOCK_SIZE};
use crypto_core::stream::StreamEncryption;
use crypto_core::{decrypt_file, encrypt_file};

fn round_trip(password: &[u8], plaintext: &[u8], algorithm: Algorithm, mode: Mode) {
    let ct = encrypt_file(
        password,
        plaintext,
        algorithm,
        mode,
        HashingAlgorithm::Argon2id,
    )
    .unwrap();
    let back = decrypt_file(password, &ct).unwrap();
    assert_eq!(back, plaintext.to_vec());
}

#[test]
fn empty_xchacha_stream_file_is_244_bytes() {
    let ct = encrypt_file(
        b"password",
        b"",
        Algorithm::XChaCha20Poly1305,
        Mode::Stream,
        HashingAlgorithm::Argon2id,
    )
    .unwrap();
    assert_eq!(ct.len(), 228 + 16);
    assert_eq!(decrypt_file(b"password", &ct).unwrap(), Vec::<u8>::new());
}

#[test]
fn full_block_aes_stream_file_round_trips() {
    let pt = vec![0u8; BLOCK_SIZE];
    let ct = encrypt_file(
        b"hunter2",
        &pt,
        Algorithm::Aes256Gcm,
        Mode::Stream,
        HashingAlgorithm::Argon2id,
    )
    .unwrap();
    assert_eq!(ct.len(), 228 + (BLOCK_SIZE + 16) + 16);
    assert_eq!(decrypt_file(b"hunter2", &ct).unwrap(), pt);
}

#[test]
fn flipped_body_byte_fails_authentication() {
    let pt = vec![0u8; BLOCK_SIZE];
    let mut ct = encrypt_file(
        b"hunter2",
        &pt,
        Algorithm::Aes256Gcm,
        Mode::Stream,
        HashingAlgorithm::Argon2id,
    )
    .unwrap();
    ct[230] ^= 1;
    assert_eq!(
        decrypt_file(b"hunter2", &ct).unwrap_err(),
        Error::AuthenticationFailed
    );
}

#[test]
fn xchacha_stream_round_trips_one_byte() {
    round_trip(b"pw", b"x", Algorithm::XChaCha20Poly1305, Mode::Stream);
}

#[test]
fn xchacha_stream_round_trips_block_minus_one() {
    let pt = vec![0x5Au8; BLOCK_SIZE - 1];
    round_trip(b"pw", &pt, Algorithm::XChaCha20Poly1305, Mode::Stream);
}

#[test]
fn xchacha_stream_round_trips_block_plus_one() {
    let pt = vec![0xC3u8; BLOCK_SIZE + 1];
    round_trip(b"pw", &pt, Algorithm::XChaCha20Poly1305, Mode::Stream);
}

#[test]
fn xchacha_stream_round_trips_five_blocks_seventeen() {
    let pt: Vec<u8> = (0..5 * BLOCK_SIZE + 17).map(|i| (i % 251) as u8).collect();
    round_trip(b"pw", &pt, Algorithm::XChaCha20Poly1305, Mode::Stream);
}

#[test]
fn aes_stream_round_trips_block_plus_one() {
    let pt = vec![0x77u8; BLOCK_SIZE + 1];
    round_trip(b"pw", &pt, Algorithm::Aes256Gcm, Mode::Stream);
}

#[test]
fn xchacha_memory_round_trips() {
    round_trip(
        b"pw",
        b"memory mode plaintext",
        Algorithm::XChaCha20Poly1305,
        Mode::Memory,
    );
}

#[test]
fn aes_memory_round_trips_empty() {
    round_trip(b"pw", b"", Algorithm::Aes256Gcm, Mode::Memory);
}

#[test]
fn wrong_password_is_no_valid_keyslot() {
    let ct = encrypt_file(
        b"a",
        b"secret content",
        Algorithm::XChaCha20Poly1305,
        Mode::Stream,
        HashingAlgorithm::Argon2id,
    )
    .unwrap();
    assert_eq!(decrypt_file(b"b", &ct).unwrap_err(), Error::NoValidKeyslot);
}

#[test]
fn truncated_file_is_invalid_magic() {
    assert_eq!(
        decrypt_file(b"pw", &[0u8; 100]).unwrap_err(),
        Error::InvalidMagic
    );
    assert_eq!(
        decrypt_file(b"pw", &[0u8; 300]).unwrap_err(),
        Error::InvalidMagic
    );
}

fn two_slot_file(p1: &[u8], p2: &[u8], pt: &[u8]) -> Vec<u8> {
    let master_key = [0x33u8; 32];
    let body_nonce = vec![0x44u8; 20];
    let algorithm = Algorithm::XChaCha20Poly1305;
    let mode = Mode::Stream;
    let mut slots = Vec::new();
    for (pw, fill) in [(p1, 0x55u8), (p2, 0x66u8)] {
        let salt = [fill; 16];
        let nonce = vec![fill; 20];
        let derived = crypto_core::backend::derive_key(pw, &salt);
        let wrapped =
            wrap_master_key(&master_key, &derived, algorithm, mode, &nonce).unwrap();
        slots.push(FileKeyslot {
            version: FileKeyslotVersion::V1,
            algorithm,
            hashing_algorithm: HashingAlgorithm::Argon2id,
            mode,
            salt,
            nonce,
            master_key: wrapped,
        });
    }
    let header = FileHeader {
        version: FileHeaderVersion::V1,
        algorithm,
        mode,
        nonce: body_nonce.clone(),
        keyslots: slots,
    };
    let mut file = header.serialize();
    let stream = StreamEncryption::init(&master_key, &body_nonce, algorithm).unwrap();
    let body = stream.encrypt_streams(pt).unwrap();
    file.extend_from_slice(&body);
    file
}

#[test]
fn two_slot_file_opens_with_first_password() {
    let file = two_slot_file(b"first", b"second", b"shared data");
    assert_eq!(decrypt_file(b"first", &file).unwrap(), b"shared data".to_vec());
}

#[test]
fn two_slot_file_opens_with_second_password() {
    let file = two_slot_file(b"first", b"second", b"shared data");
    assert_eq!(decrypt_file(b"second", &file).unwrap(), b"shared data".to_vec());
}

#[test]
fn unwrap_with_wrong_key_fails() {
    let master_key = [9u8; 32];
    let good = [1u8; 32];
    let bad = [2u8; 32];
    let nonce = [0u8; 24];
    let wrapped = wrap_master_key(
        &master_key,
        &good,
        Algorithm::XChaCha20Poly1305,
        Mode::Memory,
        &nonce,
    )
    .unwrap();
    let back = unwrap_master_key(
        &wrapped,
        &good,
        Algorithm::XChaCha20Poly1305,
        Mode::Memory,
        &nonce,
    )
    .unwrap();
    assert_eq!(back, master_key);
    assert_eq!(
        unwrap_master_key(
            &wrapped,
            &bad,
            Algorithm::XChaCha20Poly1305,
            Mode::Memory,
            &nonce,
        )
        .unwrap_err(),
        Error::Decrypt
    );
}

#[test]
fn wrap_rejects_wrong_nonce_length() {
    assert_eq!(
        wrap_master_key(
            &[0u8; 32],
            &[0u8; 32],
            Algorithm::Aes256Gcm,
            Mode::Memory,
            &[0u8; 11],
        )
        .unwrap_err(),
        Error::NonceLengthMismatch
    );
}

#[test]
fn aes_stream_round_trips_empty() {
    round_trip(b"pw", b"", Algorithm::Aes256Gcm, Mode::Stream);
}

#[test]
fn flipped_memory_body_byte_fails_authentication() {
    let mut ct = encrypt_file(
        b"pw",
        b"memory mode data",
        Algorithm::XChaCha20Poly1305,
        Mode::Memory,
        HashingAlgorithm::Argon2id,
    )
    .unwrap();
    ct[235] ^= 0x10;
    assert_eq!(
        decrypt_file(b"pw", &ct).unwrap_err(),
        Error::AuthenticationFailed
    );
}
