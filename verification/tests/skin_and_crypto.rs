//! The metadata skin and the AEAD stage, on concrete values.

use sigma_vault::coordinate::DimensionalCoordinate;
use sigma_vault::crypto::{derive_nonce, CryptoDimensionHandler};
use sigma_vault::errors::VaultError;
use sigma_vault::skin::MetadataManipulator;

fn coord(metadata: u32) -> DimensionalCoordinate {
    DimensionalCoordinate {
        spatial: 10,
        temporal: 20,
        frequency: 30,
        protocol: 40,
        fragmentation: 50,
        cryptographic: 60,
        metadata,
    }
}

#[test]
fn skin_round_trip() {
    let m = MetadataManipulator::new();
    let c = coord(17);
    let payload: Vec<u8> = (0u8..80).collect();
    let skinned = m.manipulate_metadata(&payload, &c);
    let (stripped, recovered) = m.strip_skin(&skinned).unwrap();
    assert_eq!(stripped, payload);
    assert_eq!(recovered, c);
}

#[test]
fn padding_length_follows_the_formula() {
    let m = MetadataManipulator::new();
    // metadata = 5 selects strategy 5 % 3 == 2: fixed 50 bytes of padding.
    let c = coord(5);
    let skinned = m.manipulate_metadata(&[1, 2, 3], &c);
    assert_eq!(skinned.len(), 3 + 50 + 28);
    // metadata = 6 selects strategy 0: 6 % 101 == 6 bytes of zero padding.
    let c = coord(6);
    let skinned = m.manipulate_metadata(&[1, 2, 3], &c);
    assert_eq!(skinned.len(), 3 + 6 + 28);
    assert!(skinned[3..9].iter().all(|&b| b == 0));
    // metadata = 7 selects strategy 1: 10 + 7 % 191 == 17 bytes of motif.
    let c = coord(7);
    let skinned = m.manipulate_metadata(&[9], &c);
    assert_eq!(skinned.len(), 1 + 17 + 28);
    assert_eq!(skinned[1], 0xFF);
    assert_eq!(skinned[2], 0x00);
}

#[test]
fn trailer_holds_the_masked_coordinate() {
    let m = MetadataManipulator::new();
    let c = coord(0);
    let skinned = m.manipulate_metadata(&[], &c);
    let trailer = &skinned[skinned.len() - 28..];
    let fields = [10u32, 20, 30, 40, 50, 60, 0];
    for (i, f) in fields.iter().enumerate() {
        let word = &trailer[i * 4..i * 4 + 4];
        let raw: Vec<u8> = word.iter().map(|&b| b ^ 0x5A).collect();
        assert_eq!(u32::from_le_bytes([raw[0], raw[1], raw[2], raw[3]]), *f);
    }
}

#[test]
fn strip_skin_rejects_short_input() {
    let m = MetadataManipulator::new();
    assert_eq!(m.strip_skin(&[0u8; 27]), Err(VaultError::CoordinateTrailerMissing));
}

#[test]
fn nonce_bytes_are_exact() {
    let c = coord(0);
    // cryptographic = 60, fragment index 2: trailing word 60 + 128 * 2.
    let n = derive_nonce(0x0102030405060708, 2, &c);
    assert_eq!(n.len(), 12);
    assert_eq!(&n[0..8], &0x0102030405060708u64.to_le_bytes());
    assert_eq!(&n[8..12], &(60u32 + 256).to_le_bytes());
}

#[test]
fn nonces_differ_across_fragments() {
    let c = coord(0);
    let a = derive_nonce(7, 0, &c);
    let b = derive_nonce(7, 1, &c);
    let d = derive_nonce(8, 0, &c);
    assert_ne!(a, b);
    assert_ne!(a, d);
    assert_ne!(b, d);
}

#[test]
fn aead_round_trip() {
    let handler = CryptoDimensionHandler::new(&[7u8; 32], 0);
    let c = coord(3);
    let plaintext = b"a fragment payload";
    let sealed = handler.encrypt_fragment(plaintext, &c, 42, 1).unwrap();
    assert_eq!(sealed.len(), plaintext.len() + 16);
    assert_ne!(&sealed[..plaintext.len()], plaintext.as_slice());
    let opened = handler.decrypt_fragment(&sealed, &c, 42, 1).unwrap();
    assert_eq!(opened, plaintext.to_vec());
}

#[test]
fn aead_rejects_tampering() {
    let handler = CryptoDimensionHandler::new(&[7u8; 32], 0);
    let c = coord(3);
    let mut sealed = handler.encrypt_fragment(b"payload", &c, 1, 0).unwrap();
    sealed[0] ^= 1;
    assert_eq!(handler.decrypt_fragment(&sealed, &c, 1, 0), Err(VaultError::AeadFailure));
}

#[test]
fn aead_rejects_wrong_nonce() {
    let handler = CryptoDimensionHandler::new(&[7u8; 32], 0);
    let c = coord(3);
    let sealed = handler.encrypt_fragment(b"payload", &c, 1, 0).unwrap();
    assert_eq!(handler.decrypt_fragment(&sealed, &c, 2, 0), Err(VaultError::AeadFailure));
}

#[test]
fn prior_key_still_opens_after_rotation() {
    let mut handler = CryptoDimensionHandler::new(&[7u8; 32], 0);
    let c = coord(3);
    let sealed = handler.encrypt_fragment(b"in flight", &c, 5, 0).unwrap();
    handler.rotate(&[8u8; 32], 600_000);
    let opened = handler.decrypt_fragment(&sealed, &c, 5, 0).unwrap();
    assert_eq!(opened, b"in flight".to_vec());
}

#[test]
fn rotation_is_due_after_the_interval() {
    let handler = CryptoDimensionHandler::new(&[7u8; 32], 1_000);
    assert!(!handler.needs_rotation(1_000));
    assert!(!handler.needs_rotation(300_999));
    assert!(handler.needs_rotation(301_000));
}

#[test]
fn error_names_are_stable() {
    assert_eq!(VaultError::SessionUnknown.name(), "session_unknown");
    assert_eq!(VaultError::QueueOverflow.name(), "queue_overflow");
    assert_eq!(VaultError::FragmentationEmpty.name(), "fragmentation_empty");
}

#[test]
fn extract_metadata_reads_the_trailer() {
    let m = MetadataManipulator::new();
    let c = coord(33);
    let skinned = m.manipulate_metadata(b"payload", &c);
    assert_eq!(m.extract_metadata(&skinned), Some(c));
    assert_eq!(m.extract_metadata(&[0u8; 5]), None);
}

#[test]
fn aead_round_trip_check_holds() {
    let handler = CryptoDimensionHandler::new(&[9u8; 32], 0);
    let c = coord(11);
    assert!(sigma_vault::crypto::check_aead_round_trip(&handler, b"any payload", &c, 3, 4));
    assert!(sigma_vault::crypto::check_aead_round_trip(&handler, &[], &c, 0, 0));
}
