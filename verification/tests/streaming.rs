use crypto_core::encryptor::{StreamEncryptor, StreamStepType};
use crypto_core::error::Error;
use crypto_core::primitives::{Algorithm, BLOCK_SIZE};
use crypto_core::stream::{StreamDecryption, StreamEncryption};

const KEY: [u8; 32] = [0x42; 32];

#[test]
fn init_rejects_nineteen_byte_xchacha_nonce() {
    let r = StreamEncryption::init(&KEY, &[0u8; 19], Algorithm::XChaCha20Poly1305);
    assert!(matches!(r, Err(Error::NonceLengthMismatch)));
}

#[test]
fn init_rejects_off_by_one_nonces() {
    assert!(matches!(
        StreamEncryption::init(&KEY, &[0u8; 21], Algorithm::XChaCha20Poly1305),
        Err(Error::NonceLengthMismatch)
    ));
    assert!(matches!(
        StreamEncryption::init(&KEY, &[0u8; 7], Algorithm::Aes256Gcm),
        Err(Error::NonceLengthMismatch)
    ));
    assert!(matches!(
        StreamEncryption::init(&KEY, &[0u8; 9], Algorithm::Aes256Gcm),
        Err(Error::NonceLengthMismatch)
    ));
    assert!(StreamEncryption::init(&KEY, &[0u8; 20], Algorithm::XChaCha20Poly1305).is_ok());
    assert!(StreamEncryption::init(&KEY, &[0u8; 8], Algorithm::Aes256Gcm).is_ok());
    assert!(matches!(
        StreamDecryption::init(&KEY, &[0u8; 19], Algorithm::XChaCha20Poly1305),
        Err(Error::NonceLengthMismatch)
    ));
}

#[test]
fn segment_lengths_grow_by_tag() {
    let mut enc = StreamEncryption::init(&KEY, &[1u8; 20], Algorithm::XChaCha20Poly1305).unwrap();
    let c1 = enc.encrypt_next(b"hello world");
    assert_eq!(c1.len(), 11 + 16);
    let c2 = enc.encrypt_last(b"!");
    assert_eq!(c2.len(), 1 + 16);
}

#[test]
fn segment_round_trip() {
    let mut enc = StreamEncryption::init(&KEY, &[1u8; 8], Algorithm::Aes256Gcm).unwrap();
    let c1 = enc.encrypt_next(b"first segment");
    let c2 = enc.encrypt_last(b"last segment");
    let mut dec = StreamDecryption::init(&KEY, &[1u8; 8], Algorithm::Aes256Gcm).unwrap();
    let p1 = dec.decrypt_next(c1.as_slice()).unwrap();
    let p2 = dec.decrypt_last(c2.as_slice()).unwrap();
    assert_eq!(p1, b"first segment".to_vec());
    assert_eq!(p2, b"last segment".to_vec());
}

#[test]
fn segment_encryption_changes_bytes() {
    let mut enc = StreamEncryption::init(&KEY, &[1u8; 20], Algorithm::XChaCha20Poly1305).unwrap();
    let c = enc.encrypt_next(b"plaintext");
    assert_ne!(&c[..9], b"plaintext");
}

#[test]
fn tampered_segment_is_rejected() {
    let mut enc = StreamEncryption::init(&KEY, &[2u8; 20], Algorithm::XChaCha20Poly1305).unwrap();
    let mut c1 = enc.encrypt_next(b"some data");
    c1[0] ^= 0x80;
    let mut dec = StreamDecryption::init(&KEY, &[2u8; 20], Algorithm::XChaCha20Poly1305).unwrap();
    assert!(matches!(dec.decrypt_next(c1.as_slice()), Err(Error::Decrypt)));
}

#[test]
fn reordered_segment_is_rejected() {
    let mut enc = StreamEncryption::init(&KEY, &[3u8; 20], Algorithm::XChaCha20Poly1305).unwrap();
    let _c1 = enc.encrypt_next(b"first");
    let c2 = enc.encrypt_next(b"second");
    let mut dec = StreamDecryption::init(&KEY, &[3u8; 20], Algorithm::XChaCha20Poly1305).unwrap();
    assert!(matches!(dec.decrypt_next(c2.as_slice()), Err(Error::Decrypt)));
}

#[test]
fn stream_driver_round_trip() {
    let pt = vec![0xABu8; BLOCK_SIZE + 5];
    let enc = StreamEncryption::init(&KEY, &[4u8; 20], Algorithm::XChaCha20Poly1305).unwrap();
    let body = enc.encrypt_streams(&pt).unwrap();
    assert_eq!(body.len(), pt.len() + 32);
    let dec = StreamDecryption::init(&KEY, &[4u8; 20], Algorithm::XChaCha20Poly1305).unwrap();
    let back = dec.decrypt_streams(&body).unwrap();
    assert_eq!(back, pt);
}

#[test]
fn stream_driver_rejects_truncated_body() {
    let pt = vec![1u8; 100];
    let enc = StreamEncryption::init(&KEY, &[5u8; 8], Algorithm::Aes256Gcm).unwrap();
    let body = enc.encrypt_streams(&pt).unwrap();
    let dec = StreamDecryption::init(&KEY, &[5u8; 8], Algorithm::Aes256Gcm).unwrap();
    assert!(matches!(
        dec.decrypt_streams(&body[..body.len() - 1]),
        Err(Error::AuthenticationFailed)
    ));
}

#[test]
fn pump_walks_blocks_then_finalizes() {
    let pt = vec![0x11u8; BLOCK_SIZE + 3];
    let stream = StreamEncryption::init(&KEY, &[6u8; 20], Algorithm::XChaCha20Poly1305).unwrap();
    let mut pump = StreamEncryptor::new(stream, pt.clone(), pt.len() as u32);
    assert!(matches!(pump.get_step_type(), StreamStepType::Normal));
    pump.step().unwrap();
    assert!(matches!(pump.get_step_type(), StreamStepType::Final));
    let body = pump.finalize().unwrap();
    assert_eq!(body.len(), (BLOCK_SIZE + 16) + (3 + 16));
    let dec = StreamDecryption::init(&KEY, &[6u8; 20], Algorithm::XChaCha20Poly1305).unwrap();
    assert_eq!(dec.decrypt_streams(&body).unwrap(), pt);
}

#[test]
fn pump_step_after_blocks_done_is_incorrect_step() {
    let stream = StreamEncryption::init(&KEY, &[7u8; 20], Algorithm::XChaCha20Poly1305).unwrap();
    let mut pump = StreamEncryptor::new(stream, vec![0u8; 10], 10);
    assert!(matches!(pump.step(), Err(Error::IncorrectStep)));
}

#[test]
fn pump_early_finalize_is_incorrect_step() {
    let stream = StreamEncryption::init(&KEY, &[8u8; 20], Algorithm::XChaCha20Poly1305).unwrap();
    let pump = StreamEncryptor::new(stream, vec![0u8; BLOCK_SIZE], BLOCK_SIZE as u32);
    assert!(matches!(pump.finalize(), Err(Error::IncorrectStep)));
}

#[test]
fn pump_short_source_is_read_underflow() {
    let stream = StreamEncryption::init(&KEY, &[9u8; 20], Algorithm::XChaCha20Poly1305).unwrap();
    let mut pump = StreamEncryptor::new(stream, vec![0u8; 10], BLOCK_SIZE as u32);
    assert!(matches!(pump.step(), Err(Error::ReadUnderflow)));
}

#[test]
fn pump_finalize_with_full_block_left_is_incorrect_step() {
    let stream = StreamEncryption::init(&KEY, &[10u8; 20], Algorithm::XChaCha20Poly1305).unwrap();
    let mut pump = StreamEncryptor::new(
        stream,
        vec![0u8; 2 * BLOCK_SIZE],
        BLOCK_SIZE as u32,
    );
    pump.step().unwrap();
    assert!(matches!(pump.finalize(), Err(Error::IncorrectStep)));
}
