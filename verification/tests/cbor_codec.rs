//! Byte-level checks of the tagged-value codec and the operation
//! payload codecs, against hand-computed encodings.

use firmups::cbor::{at_break, enc_bytes, enc_head, read_bytes, read_container, read_uint};
use firmups::operation::{
    decode_get_device_info_request, decode_get_firmware_request, decode_operation_error,
    decode_set_device_info_request, encode_get_device_info_response, encode_get_firmware_response,
    encode_operation_error, encode_set_device_info_response, GetDeviceInfoResponse,
    GetFirmwareResponse, OperationError, OperationType, SetDeviceInfoResponse,
};

#[test]
fn head_encodings_are_canonical() {
    let cases: Vec<(u8, u64, Vec<u8>)> = vec![
        (0, 0, vec![0x00]),
        (0, 23, vec![0x17]),
        (0, 24, vec![0x18, 0x18]),
        (0, 255, vec![0x18, 0xFF]),
        (0, 256, vec![0x19, 0x01, 0x00]),
        (0, 8608, vec![0x19, 0x21, 0xA0]),
        (0, 65535, vec![0x19, 0xFF, 0xFF]),
        (0, 65536, vec![0x1A, 0x00, 0x01, 0x00, 0x00]),
        (0, 0xFFFF_FFFF, vec![0x1A, 0xFF, 0xFF, 0xFF, 0xFF]),
        (0, 0x1_0000_0000, vec![0x1B, 0, 0, 0, 1, 0, 0, 0, 0]),
        (4, 3, vec![0x83]),
        (5, 0, vec![0xA0]),
        (5, 5, vec![0xA5]),
        (2, 25, vec![0x58, 0x19]),
    ];
    for (major, v, expected) in cases {
        let mut buf: Vec<u8> = Vec::new();
        enc_head(&mut buf, major, v);
        assert_eq!(buf, expected, "head({}, {})", major, v);
    }
}

#[test]
fn read_uint_accepts_non_minimal_heads() {
    // the value 5 written directly, as one byte, and as two bytes
    assert_eq!(read_uint(&[0x05], 0, 26), Some((5, 1)));
    assert_eq!(read_uint(&[0x18, 0x05], 0, 26), Some((5, 2)));
    assert_eq!(read_uint(&[0x19, 0x00, 0x05], 0, 26), Some((5, 3)));
}

#[test]
fn read_uint_respects_width_class() {
    // a four-byte head is beyond what a 16-bit reader accepts
    assert_eq!(read_uint(&[0x1A, 0, 0, 0, 5], 0, 25), None);
    assert_eq!(read_uint(&[0x1A, 0, 0, 0, 5], 0, 26), Some((5, 5)));
}

#[test]
fn read_uint_rejects_wrong_major_and_truncation() {
    assert_eq!(read_uint(&[0x83], 0, 26), None);
    assert_eq!(read_uint(&[0x19, 0x01], 0, 26), None);
    assert_eq!(read_uint(&[], 0, 26), None);
}

#[test]
fn break_byte_is_recognized() {
    assert!(at_break(&[0xFF], 0));
    assert!(!at_break(&[0xFE], 0));
    assert!(!at_break(&[0xFF], 1));
}

#[test]
fn read_container_fixed_and_indefinite() {
    assert_eq!(read_container(&[0x83], 0, 4), Some((Some(3), 1)));
    assert_eq!(read_container(&[0x9F], 0, 4), Some((None, 1)));
    assert_eq!(read_container(&[0xA0], 0, 5), Some((Some(0), 1)));
    assert_eq!(read_container(&[0xBF], 0, 5), Some((None, 1)));
    assert_eq!(read_container(&[0x83], 0, 5), None);
}

#[test]
fn read_bytes_returns_window() {
    let data = [0x43, 0xAA, 0xBB, 0xCC, 0x01];
    assert_eq!(read_bytes(&data, 0), Some((1, 3, 4)));
    // truncated byte string
    assert_eq!(read_bytes(&[0x43, 0xAA], 0), None);
}

#[test]
fn enc_bytes_writes_head_and_contents() {
    let mut buf: Vec<u8> = Vec::new();
    enc_bytes(&mut buf, &[0xDE, 0xAD]);
    assert_eq!(buf, vec![0x42, 0xDE, 0xAD]);
}

#[test]
fn device_info_request_decodes() {
    let req = decode_get_device_info_request(&[0x81, 0x18, 0x2A]).unwrap();
    assert_eq!(req.device_id, 42);
    assert!(decode_get_device_info_request(&[0x82, 0x01, 0x02]).is_err());
    assert!(decode_get_device_info_request(&[0x81]).is_err());
}

#[test]
fn device_info_response_encodes() {
    let with_fw = encode_get_device_info_response(&GetDeviceInfoResponse {
        firmware: Some(7),
        desired_firmware: 9,
        status: 0,
    });
    assert_eq!(with_fw, vec![0x83, 0x07, 0x09, 0x00]);
    let without_fw = encode_get_device_info_response(&GetDeviceInfoResponse {
        firmware: None,
        desired_firmware: 9,
        status: 2,
    });
    assert_eq!(without_fw, vec![0x83, 0xF6, 0x09, 0x02]);
}

#[test]
fn set_device_info_round_trip() {
    let req = decode_set_device_info_request(&[0x82, 0x07, 0x01]).unwrap();
    assert_eq!((req.firmware, req.status), (7, 1));
    let resp = encode_set_device_info_response(&SetDeviceInfoResponse {
        firmware: 7,
        desired_firmware: 9,
        status: 1,
    });
    assert_eq!(resp, vec![0x83, 0x07, 0x09, 0x01]);
}

#[test]
fn firmware_request_decodes() {
    // array(3, 3, 900, 200)
    let req = decode_get_firmware_request(&[0x83, 0x03, 0x19, 0x03, 0x84, 0x18, 0xC8]).unwrap();
    assert_eq!((req.firmware, req.offset, req.length), (3, 900, 200));
    assert!(decode_get_firmware_request(&[0x82, 0x03, 0x01]).is_err());
}

#[test]
fn firmware_response_encodes() {
    let resp = encode_get_firmware_response(&GetFirmwareResponse {
        firmware: 3,
        offset: 900,
        length: 2,
        data: vec![0xAB, 0xCD],
    });
    assert_eq!(resp, vec![0x84, 0x03, 0x19, 0x03, 0x84, 0x02, 0x42, 0xAB, 0xCD]);
}

#[test]
fn operation_error_round_trip() {
    let bytes = encode_operation_error(OperationError::DeviceNotFound);
    assert_eq!(bytes, vec![0x81, 0x04]);
    assert_eq!(
        decode_operation_error(&bytes).unwrap(),
        OperationError::DeviceNotFound
    );
    // a code outside the set reads as an invalid operation
    assert_eq!(
        decode_operation_error(&[0x81, 0x18, 0x63]).unwrap(),
        OperationError::InvalidOperation
    );
}

#[test]
fn opcode_mapping_round_trips() {
    for code in 1u16..=11 {
        assert_eq!(OperationType::from_code(code).code(), code);
    }
    assert_eq!(OperationType::from_code(12), OperationType::Invalid);
    assert_eq!(OperationType::from_code(0), OperationType::Invalid);
}
