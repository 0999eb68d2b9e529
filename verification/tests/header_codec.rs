use crypto_core::error::Error;
use crypto_core::header::{
    FileHeader, FileHeaderVersion, FileKeyslot, FileKeyslotVersion, MAGIC_BYTES,
};
use crypto_core::primitives::{Algorithm, HashingAlgorithm, Mode};

fn sample_keyslot() -> FileKeyslot {
    FileKeyslot {
        version: FileKeyslotVersion::V1,
        algorithm: Algorithm::XChaCha20Poly1305,
        hashing_algorithm: HashingAlgorithm::Argon2id,
        mode: Mode::Stream,
        salt: [7u8; 16],
        nonce: vec![9u8; 20],
        master_key: [3u8; 48],
    }
}

fn sample_header() -> FileHeader {
    FileHeader {
        version: FileHeaderVersion::V1,
        algorithm: Algorithm::XChaCha20Poly1305,
        mode: Mode::Stream,
        nonce: vec![5u8; 20],
        keyslots: vec![sample_keyslot()],
    }
}

#[test]
fn serialized_header_is_228_bytes() {
    assert_eq!(sample_header().serialize().len(), 228);
}

#[test]
fn header_layout_offsets() {
    let bytes = sample_header().serialize();
    assert_eq!(&bytes[0..6], &MAGIC_BYTES);
    assert_eq!(&bytes[6..8], &[0x0A, 0x01]);
    assert_eq!(&bytes[8..10], &[0x0B, 0x01]);
    assert_eq!(&bytes[10..12], &[0x0C, 0x01]);
    assert_eq!(&bytes[12..32], &[5u8; 20][..]);
    assert_eq!(&bytes[32..36], &[0u8; 4]);
}

#[test]
fn keyslot_layout_offsets() {
    let bytes = sample_keyslot().serialize();
    assert_eq!(bytes.len(), 96);
    assert_eq!(&bytes[0..2], &[0x0D, 0x01]);
    assert_eq!(&bytes[2..4], &[0x0B, 0x01]);
    assert_eq!(&bytes[4..6], &[0x0C, 0x01]);
    assert_eq!(&bytes[6..22], &[7u8; 16]);
    assert_eq!(&bytes[22..70], &[3u8; 48][..]);
    assert_eq!(&bytes[70..90], &[9u8; 20][..]);
    assert_eq!(&bytes[90..96], &[0u8; 6]);
}

#[test]
fn one_occupied_slot_leaves_second_slot_zero() {
    let bytes = sample_header().serialize();
    assert!(bytes[132..228].iter().all(|b| *b == 0));
}

#[test]
fn tag_serializations() {
    assert_eq!(FileHeaderVersion::V1.serialize(), [0x0A, 0x01]);
    assert_eq!(FileKeyslotVersion::V1.serialize(), [0x0D, 0x01]);
    assert_eq!(Algorithm::XChaCha20Poly1305.serialize(), [0x0B, 0x01]);
    assert_eq!(Algorithm::Aes256Gcm.serialize(), [0x0B, 0x02]);
    assert_eq!(Mode::Stream.serialize(), [0x0C, 0x01]);
    assert_eq!(Mode::Memory.serialize(), [0x0C, 0x02]);
}

#[test]
fn nonce_length_table() {
    assert_eq!(Algorithm::XChaCha20Poly1305.nonce_len(Mode::Stream), 20);
    assert_eq!(Algorithm::XChaCha20Poly1305.nonce_len(Mode::Memory), 24);
    assert_eq!(Algorithm::Aes256Gcm.nonce_len(Mode::Stream), 8);
    assert_eq!(Algorithm::Aes256Gcm.nonce_len(Mode::Memory), 12);
}

#[test]
fn header_round_trip_preserves_fields() {
    let header = sample_header();
    let bytes = header.serialize();
    let parsed = FileHeader::parse(&bytes).unwrap();
    assert!(matches!(parsed.version, FileHeaderVersion::V1));
    assert_eq!(parsed.algorithm, header.algorithm);
    assert_eq!(parsed.mode, header.mode);
    assert_eq!(parsed.nonce, header.nonce);
    assert_eq!(parsed.keyslots.len(), 1);
    let slot = &parsed.keyslots[0];
    assert!(matches!(slot.version, FileKeyslotVersion::V1));
    assert_eq!(slot.algorithm, Algorithm::XChaCha20Poly1305);
    assert_eq!(slot.hashing_algorithm, HashingAlgorithm::Argon2id);
    assert_eq!(slot.mode, Mode::Stream);
    assert_eq!(slot.salt, [7u8; 16]);
    assert_eq!(slot.nonce, vec![9u8; 20]);
    assert_eq!(slot.master_key.to_vec(), vec![3u8; 48]);
}

#[test]
fn flipped_magic_byte_fails() {
    let mut bytes = sample_header().serialize();
    bytes[0] ^= 1;
    assert_eq!(FileHeader::parse(&bytes).unwrap_err(), Error::InvalidMagic);
}

#[test]
fn unknown_header_version_fails() {
    let mut bytes = sample_header().serialize();
    bytes[7] = 0x02;
    assert_eq!(
        FileHeader::parse(&bytes).unwrap_err(),
        Error::UnsupportedVersion
    );
}

#[test]
fn unknown_algorithm_tag_fails() {
    let mut bytes = sample_header().serialize();
    bytes[9] = 0x03;
    assert_eq!(FileHeader::parse(&bytes).unwrap_err(), Error::InvalidTag);
}

#[test]
fn unknown_mode_tag_fails() {
    let mut bytes = sample_header().serialize();
    bytes[11] = 0x07;
    assert_eq!(FileHeader::parse(&bytes).unwrap_err(), Error::InvalidTag);
}

#[test]
fn nonzero_nonce_padding_fails() {
    let mut bytes = sample_header().serialize();
    bytes[34] = 1;
    assert_eq!(FileHeader::parse(&bytes).unwrap_err(), Error::NonZeroPadding);
}

#[test]
fn all_zero_slots_parse_as_absent() {
    let header = FileHeader {
        version: FileHeaderVersion::V1,
        algorithm: Algorithm::Aes256Gcm,
        mode: Mode::Memory,
        nonce: vec![1u8; 12],
        keyslots: vec![],
    };
    let bytes = header.serialize();
    let parsed = FileHeader::parse(&bytes).unwrap();
    assert_eq!(parsed.keyslots.len(), 0);
}

#[test]
fn slot_with_unknown_version_fails() {
    let mut bytes = sample_header().serialize();
    bytes[36] = 0x00;
    assert_eq!(
        FileHeader::parse(&bytes).unwrap_err(),
        Error::UnsupportedVersion
    );
}

#[test]
fn slot_nonzero_padding_fails() {
    let mut bytes = sample_header().serialize();
    bytes[36 + 94] = 0xAA;
    assert_eq!(FileHeader::parse(&bytes).unwrap_err(), Error::NonZeroPadding);
}
