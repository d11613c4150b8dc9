//! End-to-end datagram checks against the real ciphers: round trips,
//! tamper rejection, algorithm mismatch, and nonce determinism.

use aes_gcm::aead::{Aead, KeyInit, Payload};
use firmups::catalog::{Catalog, DeviceStatus, KeyType as RowKeyType};
use firmups::cose::{
    create_aad, decode_msg, encode_msg, encode_msg_with_nonce, parse_envelope, CoseCodecError,
    KeyType,
};
use firmups::cose_handler::process_datagram;
use firmups::crypto::CryptoAlgorithm;
use firmups::handler::OperationHandler;

fn device_key() -> Vec<u8> {
    (0u8..16).collect()
}

fn nonce12() -> Vec<u8> {
    (1u8..=12).collect()
}

/// A catalog with device 42 (firmware 7, desired 9, ACTIVE) holding an
/// ACTIVE AES-GCM-128 key.
fn demo_catalog() -> Catalog {
    let mut c = Catalog::new();
    c.create_device_type(1, "sensor".to_string()).unwrap();
    c.create_firmware(7, "base".to_string(), "1.0".to_string(), vec![0xAA; 64])
        .unwrap();
    c.create_firmware(9, "base".to_string(), "2.0".to_string(), vec![0xBB; 64])
        .unwrap();
    c.create_device(42, "lamp".to_string(), 1, Some(7), 9, DeviceStatus::Active)
        .unwrap();
    c.create_device_key(42, RowKeyType::Lightweight, CryptoAlgorithm::AesGcm128, device_key())
        .unwrap();
    c
}

fn get_device_info_payload() -> Vec<u8> {
    vec![0x81, 0x18, 0x2A]
}

#[test]
fn round_trip_get_device_info() {
    let c = demo_catalog();
    let msg = encode_msg_with_nonce(
        &device_key(),
        KeyType::AesGcm128,
        42,
        6,
        &get_device_info_payload(),
        &nonce12(),
    )
    .unwrap();
    let d = decode_msg(&c, &msg).unwrap();
    assert_eq!(d.device_id, 42);
    assert_eq!(d.opcode, 6);
    assert_eq!(d.key_type, KeyType::AesGcm128);
    assert_eq!(d.plaintext, get_device_info_payload());
    assert_eq!(d.key, device_key());
}

#[test]
fn envelope_matches_independent_cipher() {
    // the ciphertext inside the envelope must be what the AEAD crate
    // itself computes over the same key, nonce, associated data and text
    let msg = encode_msg_with_nonce(
        &device_key(),
        KeyType::AesGcm128,
        42,
        6,
        &get_device_info_payload(),
        &nonce12(),
    )
    .unwrap();
    let parts = parse_envelope(&msg).unwrap();
    let ph = &msg[parts.ph_start..parts.ph_end];
    let ct = &msg[parts.ct_start..parts.ct_end];
    let aad = create_aad(ph);
    let key = aes_gcm::Key::<aes_gcm::Aes128Gcm>::try_from(&device_key()[..]).unwrap();
    let nonce_bytes = nonce12();
    let nonce = aes_gcm::Nonce::<aes_gcm::aead::consts::U12>::try_from(&nonce_bytes[..]).unwrap();
    let cipher = aes_gcm::Aes128Gcm::new(&key);
    let expected = cipher
        .encrypt(
            &nonce,
            Payload { msg: &get_device_info_payload(), aad: &aad },
        )
        .unwrap();
    assert_eq!(ct, &expected[..]);
}

#[test]
fn round_trip_ascon() {
    let mut c = Catalog::new();
    c.create_device_type(1, "sensor".to_string()).unwrap();
    c.create_firmware(9, "base".to_string(), "2.0".to_string(), vec![1, 2, 3])
        .unwrap();
    c.create_device(7, "valve".to_string(), 1, None, 9, DeviceStatus::Inactive)
        .unwrap();
    c.create_device_key(7, RowKeyType::Lightweight, CryptoAlgorithm::AsconAead128, device_key())
        .unwrap();
    let nonce: Vec<u8> = (1u8..=16).collect();
    let msg = encode_msg_with_nonce(
        &device_key(),
        KeyType::AsconAead128,
        7,
        6,
        &[0x81, 0x07],
        &nonce,
    )
    .unwrap();
    let d = decode_msg(&c, &msg).unwrap();
    assert_eq!(d.device_id, 7);
    assert_eq!(d.key_type, KeyType::AsconAead128);
    assert_eq!(d.plaintext, vec![0x81, 0x07]);
}

#[test]
fn any_flipped_byte_is_rejected() {
    let c = demo_catalog();
    let msg = encode_msg_with_nonce(
        &device_key(),
        KeyType::AesGcm128,
        42,
        6,
        &get_device_info_payload(),
        &nonce12(),
    )
    .unwrap();
    let parts = parse_envelope(&msg).unwrap();
    for i in 0..msg.len() {
        let mut bad = msg.clone();
        bad[i] ^= 0x01;
        let r = decode_msg(&c, &bad);
        assert!(r.is_err(), "flipped byte {} decoded", i);
        if i >= parts.ct_start {
            // a flip inside the ciphertext always fails authentication
            assert_eq!(r.err(), Some(CoseCodecError::DecryptionError), "byte {}", i);
        }
    }
}

#[test]
fn flipped_header_byte_fails_decryption_or_parsing() {
    let c = demo_catalog();
    let msg = encode_msg_with_nonce(
        &device_key(),
        KeyType::AesGcm128,
        42,
        6,
        &get_device_info_payload(),
        &nonce12(),
    )
    .unwrap();
    let parts = parse_envelope(&msg).unwrap();
    // flip the low bit of the serialized opcode inside the protected
    // header: the frame still parses, so authentication must catch it
    let opcode_pos = parts.ph_end - 23;
    let mut bad = msg.clone();
    assert_eq!(bad[opcode_pos], 0x06);
    bad[opcode_pos] = 0x07;
    assert_eq!(decode_msg(&c, &bad).err(), Some(CoseCodecError::DecryptionError));
}

#[test]
fn equal_nonces_give_equal_messages() {
    let a = encode_msg_with_nonce(
        &device_key(),
        KeyType::AesGcm128,
        42,
        6,
        &get_device_info_payload(),
        &nonce12(),
    )
    .unwrap();
    let b = encode_msg_with_nonce(
        &device_key(),
        KeyType::AesGcm128,
        42,
        6,
        &get_device_info_payload(),
        &nonce12(),
    )
    .unwrap();
    assert_eq!(a, b);
}

#[test]
fn random_nonce_encoding_still_decodes() {
    let c = demo_catalog();
    let msg = encode_msg(
        &device_key(),
        KeyType::AesGcm128,
        42,
        6,
        &get_device_info_payload(),
    )
    .unwrap();
    let d = decode_msg(&c, &msg).unwrap();
    assert_eq!(d.device_id, 42);
    assert_eq!(d.plaintext, get_device_info_payload());
}

#[test]
fn algorithm_mismatch_drops_datagram() {
    // the device's ACTIVE key is Ascon, the client speaks AES-GCM
    let mut c = Catalog::new();
    c.create_device_type(1, "sensor".to_string()).unwrap();
    c.create_firmware(9, "base".to_string(), "2.0".to_string(), vec![1])
        .unwrap();
    c.create_device(42, "lamp".to_string(), 1, None, 9, DeviceStatus::Active)
        .unwrap();
    c.create_device_key(42, RowKeyType::Lightweight, CryptoAlgorithm::AsconAead128, device_key())
        .unwrap();
    let msg = encode_msg_with_nonce(
        &device_key(),
        KeyType::AesGcm128,
        42,
        6,
        &get_device_info_payload(),
        &nonce12(),
    )
    .unwrap();
    assert_eq!(decode_msg(&c, &msg).err(), Some(CoseCodecError::DecryptionError));
    let mut c2 = c;
    assert!(process_datagram(&mut c2, &msg).is_none());
}

#[test]
fn unknown_device_drops_datagram() {
    let c = demo_catalog();
    let msg = encode_msg_with_nonce(
        &device_key(),
        KeyType::AesGcm128,
        1000,
        6,
        &[0x81, 0x19, 0x03, 0xE8],
        &nonce12(),
    )
    .unwrap();
    assert_eq!(decode_msg(&c, &msg).err(), Some(CoseCodecError::DecryptionError));
}

#[test]
fn full_pipeline_answers_get_device_info() {
    let mut c = demo_catalog();
    let msg = encode_msg_with_nonce(
        &device_key(),
        KeyType::AesGcm128,
        42,
        6,
        &get_device_info_payload(),
        &nonce12(),
    )
    .unwrap();
    let response = process_datagram(&mut c, &msg).unwrap();
    // open the response with the same key
    let parts = parse_envelope(&response).unwrap();
    assert_eq!(parts.header.device_id, 42);
    assert_eq!(parts.header.opcode, 7);
    let ph = &response[parts.ph_start..parts.ph_end];
    let ct = &response[parts.ct_start..parts.ct_end];
    let aad = create_aad(ph);
    let key = aes_gcm::Key::<aes_gcm::Aes128Gcm>::try_from(&device_key()[..]).unwrap();
    let nonce =
        aes_gcm::Nonce::<aes_gcm::aead::consts::U12>::try_from(&parts.header.nonce[..]).unwrap();
    let cipher = aes_gcm::Aes128Gcm::new(&key);
    let plaintext = cipher.decrypt(&nonce, Payload { msg: ct, aad: &aad }).unwrap();
    assert_eq!(plaintext, vec![0x83, 0x07, 0x09, 0x00]);
}

#[test]
fn full_pipeline_applies_set_device_info() {
    let mut c = demo_catalog();
    // array(2, firmware 7, status 0)
    let msg = encode_msg_with_nonce(
        &device_key(),
        KeyType::AesGcm128,
        42,
        8,
        &[0x82, 0x07, 0x00],
        &nonce12(),
    )
    .unwrap();
    let response = process_datagram(&mut c, &msg).unwrap();
    // the device row took the update
    assert_eq!(c.devices[0].firmware, Some(7));
    // the reply reports the row after the update
    let parts = parse_envelope(&response).unwrap();
    assert_eq!(parts.header.opcode, 9);
    let ph = &response[parts.ph_start..parts.ph_end];
    let ct = &response[parts.ct_start..parts.ct_end];
    let aad = create_aad(ph);
    let key = aes_gcm::Key::<aes_gcm::Aes128Gcm>::try_from(&device_key()[..]).unwrap();
    let nonce =
        aes_gcm::Nonce::<aes_gcm::aead::consts::U12>::try_from(&parts.header.nonce[..]).unwrap();
    let cipher = aes_gcm::Aes128Gcm::new(&key);
    let plaintext = cipher.decrypt(&nonce, Payload { msg: ct, aad: &aad }).unwrap();
    assert_eq!(plaintext, vec![0x83, 0x07, 0x09, 0x00]);
}

#[test]
fn handler_rejects_unknown_opcode() {
    let mut c = demo_catalog();
    let h = OperationHandler::new();
    let (opc, payload) = h.handle_operation(&mut c, 42, 5, &[0x80]);
    assert_eq!(opc, 1);
    assert_eq!(payload, vec![0x81, 0x00]);
}
