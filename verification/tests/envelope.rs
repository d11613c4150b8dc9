//! Protected-header and envelope frame checks: exact serialized bytes,
//! any key order, fixed- and indefinite-length containers, and the
//! critical-header policy.

use firmups::cose::{
    create_aad, decode_protected_header, encode_protected_header, parse_envelope, CoseCodecError,
    KeyType, ProtectedHeader,
};

fn nonce12() -> Vec<u8> {
    vec![1, 2, 3, 4, 5, 6, 7, 8, 9, 10, 11, 12]
}

/// The serialized header for device 42, opcode 6, AES-GCM-128, the
/// twelve-byte nonce 01..0c, written out by hand.
fn ph_bytes() -> Vec<u8> {
    let mut v = vec![
        0xA5, // map(5)
        0x01, 0x01, // 1 -> algorithm 1
        0x19, 0x21, 0xA0, 0x18, 0x2A, // 8608 -> device 42
        0x19, 0x21, 0xB9, 0x06, // 8633 -> opcode 6
        0x05, 0x4C, // 5 -> bytes(12)
    ];
    v.extend_from_slice(&nonce12());
    v.extend_from_slice(&[
        0x02, 0x82, 0x19, 0x21, 0xA0, 0x19, 0x21, 0xB9, // 2 -> [8608, 8633]
    ]);
    v
}

#[test]
fn protected_header_encodes_exactly() {
    let ph = ProtectedHeader {
        device_id: 42,
        opcode: 6,
        encryption_algorithm: KeyType::AesGcm128,
        nonce: nonce12(),
    };
    assert_eq!(encode_protected_header(&ph), ph_bytes());
}

#[test]
fn protected_header_decodes_back() {
    let h = decode_protected_header(&ph_bytes()).unwrap();
    assert_eq!(h.device_id, 42);
    assert_eq!(h.opcode, 6);
    assert_eq!(h.encryption_algorithm, KeyType::AesGcm128);
    assert_eq!(h.nonce, nonce12());
}

#[test]
fn protected_header_decodes_any_key_order() {
    // nonce first, then critical list, opcode, device, algorithm
    let mut v = vec![0xA5, 0x05, 0x4C];
    v.extend_from_slice(&nonce12());
    v.extend_from_slice(&[0x02, 0x82, 0x19, 0x21, 0xA0, 0x19, 0x21, 0xB9]);
    v.extend_from_slice(&[0x19, 0x21, 0xB9, 0x06]);
    v.extend_from_slice(&[0x19, 0x21, 0xA0, 0x18, 0x2A]);
    v.extend_from_slice(&[0x01, 0x01]);
    let h = decode_protected_header(&v).unwrap();
    assert_eq!(h.device_id, 42);
    assert_eq!(h.opcode, 6);
    assert_eq!(h.encryption_algorithm, KeyType::AesGcm128);
    assert_eq!(h.nonce, nonce12());
}

#[test]
fn protected_header_decodes_indefinite_containers() {
    // indefinite-length map, and an indefinite-length critical list
    let mut v = vec![0xBF, 0x01, 0x01];
    v.extend_from_slice(&[0x19, 0x21, 0xA0, 0x18, 0x2A]);
    v.extend_from_slice(&[0x19, 0x21, 0xB9, 0x06]);
    v.extend_from_slice(&[0x05, 0x4C]);
    v.extend_from_slice(&nonce12());
    v.extend_from_slice(&[0x02, 0x9F, 0x19, 0x21, 0xA0, 0x19, 0x21, 0xB9, 0xFF]);
    v.push(0xFF);
    let h = decode_protected_header(&v).unwrap();
    assert_eq!(h.device_id, 42);
    assert_eq!(h.opcode, 6);
    assert_eq!(h.encryption_algorithm, KeyType::AesGcm128);
    assert_eq!(h.nonce, nonce12());
}

#[test]
fn unknown_critical_header_is_rejected() {
    // critical list [8608, 8633, 42]
    let mut v = vec![
        0xA5, 0x01, 0x01, 0x19, 0x21, 0xA0, 0x18, 0x2A, 0x19, 0x21, 0xB9, 0x06, 0x05, 0x4C,
    ];
    v.extend_from_slice(&nonce12());
    v.extend_from_slice(&[0x02, 0x83, 0x19, 0x21, 0xA0, 0x19, 0x21, 0xB9, 0x18, 0x2A]);
    assert_eq!(
        decode_protected_header(&v).err(),
        Some(CoseCodecError::UnknownCriticalHeader)
    );
}

#[test]
fn critical_list_with_known_algorithm_label_is_still_rejected() {
    // 1 is a known header key but not an accepted critical entry
    let mut v = vec![
        0xA5, 0x01, 0x01, 0x19, 0x21, 0xA0, 0x18, 0x2A, 0x19, 0x21, 0xB9, 0x06, 0x05, 0x4C,
    ];
    v.extend_from_slice(&nonce12());
    v.extend_from_slice(&[0x02, 0x81, 0x01]);
    assert_eq!(
        decode_protected_header(&v).err(),
        Some(CoseCodecError::UnknownCriticalHeader)
    );
}

#[test]
fn unknown_header_key_is_rejected() {
    let v = vec![0xA1, 0x07, 0x00];
    assert_eq!(
        decode_protected_header(&v).err(),
        Some(CoseCodecError::UnknownHeaderKey)
    );
}

#[test]
fn unknown_algorithm_is_rejected() {
    let v = vec![0xA1, 0x01, 0x02];
    assert_eq!(
        decode_protected_header(&v).err(),
        Some(CoseCodecError::UnknownAlgorithm)
    );
}

#[test]
fn missing_field_is_rejected() {
    // only the algorithm entry
    let v = vec![0xA1, 0x01, 0x01];
    assert_eq!(
        decode_protected_header(&v).err(),
        Some(CoseCodecError::MissingHeaderField)
    );
}

#[test]
fn missing_critical_list_is_rejected() {
    // all four value fields, but no critical-header list
    let mut v = vec![
        0xA4, 0x01, 0x01, 0x19, 0x21, 0xA0, 0x18, 0x2A, 0x19, 0x21, 0xB9, 0x06, 0x05, 0x4C,
    ];
    v.extend_from_slice(&nonce12());
    assert_eq!(
        decode_protected_header(&v).err(),
        Some(CoseCodecError::MissingHeaderField)
    );
}

#[test]
fn aad_wraps_header_bytes_verbatim() {
    let ph = ph_bytes();
    let aad = create_aad(&ph);
    let mut expected = vec![0x83, 0x68];
    expected.extend_from_slice(b"Encrypt0");
    expected.push(0x58);
    expected.push(ph.len() as u8);
    expected.extend_from_slice(&ph);
    expected.push(0x40);
    assert_eq!(aad, expected);
}

#[test]
fn envelope_frame_faults_are_invalid_message() {
    // not an array
    assert_eq!(
        parse_envelope(&[0xA0]).err(),
        Some(CoseCodecError::InvalidMessage)
    );
    // array of two
    assert_eq!(
        parse_envelope(&[0x82, 0x40, 0x40]).err(),
        Some(CoseCodecError::InvalidMessage)
    );
    // empty input
    assert_eq!(
        parse_envelope(&[]).err(),
        Some(CoseCodecError::InvalidMessage)
    );
}
