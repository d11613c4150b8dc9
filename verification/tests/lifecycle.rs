//! Key-lifecycle and catalog checks: provisioning order, deletion rules,
//! the firmware store with its digests and blobs, and the firmware
//! range-read behaviour.

use firmups::catalog::{
    AdminError, Catalog, DeviceStatus, KeyLifecycleError, KeyStatus, KeyType as RowKeyType,
};
use firmups::cose::KeyType;
use firmups::crypto::CryptoAlgorithm;
use firmups::catalog::hex_lower;
use firmups::cose_handler::CoseHandler;
use firmups::handler::{read_range, OperationHandler};
use firmups::operation::OperationError;

fn key16() -> Vec<u8> {
    vec![0x55; 16]
}

fn base_catalog() -> Catalog {
    let mut c = Catalog::new();
    c.create_device_type(1, "sensor".to_string()).unwrap();
    c.create_firmware(9, "base".to_string(), "1.0".to_string(), vec![0xAA; 8])
        .unwrap();
    c.create_device(5, "pump".to_string(), 1, None, 9, DeviceStatus::Active)
        .unwrap();
    c
}

#[test]
fn first_key_is_active_second_is_next_third_conflicts() {
    let mut c = base_catalog();
    let (id1, st1) = c
        .create_device_key(5, RowKeyType::Lightweight, CryptoAlgorithm::AesGcm128, key16())
        .unwrap();
    assert_eq!(st1, KeyStatus::Active);
    let (id2, st2) = c
        .create_device_key(5, RowKeyType::Lightweight, CryptoAlgorithm::AesGcm128, key16())
        .unwrap();
    assert_eq!(st2, KeyStatus::Next);
    assert_ne!(id1, id2);
    let third =
        c.create_device_key(5, RowKeyType::Lightweight, CryptoAlgorithm::AesGcm128, key16());
    assert_eq!(third.err(), Some(KeyLifecycleError::Conflict));
    // the pending NEXT key is checked before anything else, so even a
    // malformed key answers with the conflict
    let short = c.create_device_key(
        5,
        RowKeyType::Lightweight,
        CryptoAlgorithm::AesGcm128,
        vec![0u8; 4],
    );
    assert_eq!(short.err(), Some(KeyLifecycleError::Conflict));
    // the ACTIVE key cannot be deleted, the NEXT key can
    assert_eq!(c.delete_device_key(5, id1).err(), Some(KeyLifecycleError::Conflict));
    assert!(c.delete_device_key(5, id2).is_ok());
    // with the NEXT slot free again, a new key may come in as NEXT
    let (_, st4) = c
        .create_device_key(5, RowKeyType::Lightweight, CryptoAlgorithm::AesGcm128, key16())
        .unwrap();
    assert_eq!(st4, KeyStatus::Next);
}

#[test]
fn key_validation_and_missing_device() {
    let mut c = base_catalog();
    let short =
        c.create_device_key(5, RowKeyType::Lightweight, CryptoAlgorithm::AesGcm128, vec![0u8; 12]);
    assert_eq!(short.err(), Some(KeyLifecycleError::InvalidKeyLength));
    let nodev =
        c.create_device_key(99, RowKeyType::Lightweight, CryptoAlgorithm::AesGcm128, key16());
    assert_eq!(nodev.err(), Some(KeyLifecycleError::NotFound));
    let tls = c.create_device_key(5, RowKeyType::Tls, CryptoAlgorithm::AesGcm128, key16());
    assert_eq!(tls.err(), Some(KeyLifecycleError::TlsUnsupported));
    assert_eq!(c.delete_device_key(5, 12345).err(), Some(KeyLifecycleError::NotFound));
}

#[test]
fn key_resolution_matches_algorithm() {
    let mut c = base_catalog();
    c.create_device_key(5, RowKeyType::Lightweight, CryptoAlgorithm::AsconAead128, key16())
        .unwrap();
    assert_eq!(c.key_for_device(5, KeyType::AsconAead128).unwrap(), key16());
    assert!(c.key_for_device(5, KeyType::AesGcm128).is_err());
    assert!(c.key_for_device(99, KeyType::AesGcm128).is_err());
}

#[test]
fn firmware_rows_carry_digest_size_and_blob() {
    let mut c = Catalog::new();
    c.create_firmware(1, "abc".to_string(), "1".to_string(), b"abc".to_vec())
        .unwrap();
    let row = &c.firmwares[0];
    assert_eq!(row.size, 3);
    assert_eq!(row.file_id.len(), 36);
    assert_eq!(
        row.sha256,
        b"ba7816bf8f01cfea414140de5dae2223b00361a396177a9cb410ff61f20015ad".to_vec()
    );
    // the blob with the row's file id holds the bytes themselves
    let bi = c.find_blob(&row.file_id.clone()).unwrap();
    assert_eq!(c.blobs[bi].data, b"abc".to_vec());
}

#[test]
fn firmware_uniqueness_and_deletion() {
    let mut c = Catalog::new();
    c.create_firmware(1, "a".to_string(), "1".to_string(), vec![1])
        .unwrap();
    let dup = c.create_firmware(2, "a".to_string(), "1".to_string(), vec![2]);
    assert_eq!(dup.err(), Some(AdminError::Conflict));
    let dup_id = c.create_firmware(1, "b".to_string(), "1".to_string(), vec![2]);
    assert_eq!(dup_id.err(), Some(AdminError::Conflict));
    let empty_name = c.create_firmware(3, "".to_string(), "1".to_string(), vec![2]);
    assert_eq!(empty_name.err(), Some(AdminError::BadRequest));
    // a referenced row cannot go; an unreferenced one goes with its blob
    c.create_device_type(1, "sensor".to_string()).unwrap();
    c.create_device(5, "pump".to_string(), 1, None, 1, DeviceStatus::Active)
        .unwrap();
    assert_eq!(c.delete_firmware(1).err(), Some(AdminError::Internal));
    c.create_firmware(4, "c".to_string(), "1".to_string(), vec![9])
        .unwrap();
    assert!(c.delete_firmware(4).is_ok());
    assert_eq!(c.firmwares.len(), 1);
    assert_eq!(c.blobs.len(), 1);
    assert_eq!(c.delete_firmware(4).err(), Some(AdminError::NotFound));
}

#[test]
fn set_device_info_updates_row() {
    let mut c = base_catalog();
    c.create_firmware(7, "new".to_string(), "2.0".to_string(), vec![0xBB; 8])
        .unwrap();
    let (fw, desired, st) = c.set_device_info(5, 7, DeviceStatus::Maintenance).unwrap();
    assert_eq!((fw, desired, st), (7, 9, DeviceStatus::Maintenance));
    assert_eq!(c.devices[0].firmware, Some(7));
    assert_eq!(c.devices[0].status, DeviceStatus::Maintenance);
    assert_eq!(c.set_device_info(99, 7, DeviceStatus::Active).err(), Some(AdminError::NotFound));
    assert_eq!(c.set_device_info(5, 99, DeviceStatus::Active).err(), Some(AdminError::Internal));
}

#[test]
fn set_device_info_rejects_bad_status_byte() {
    let mut c = base_catalog();
    c.create_firmware(7, "new".to_string(), "2.0".to_string(), vec![0xBB; 8])
        .unwrap();
    let h = OperationHandler::new();
    // array(2, firmware 7, status 9)
    let (opc, payload) = h.handle_operation(&mut c, 5, 8, &[0x82, 0x07, 0x09]);
    assert_eq!(opc, 1);
    assert_eq!(payload, vec![0x81, OperationError::InvalidOperation.code() as u8]);
    // the row did not change
    assert_eq!(c.devices[0].firmware, None);
}

#[test]
fn get_firmware_partial_read() {
    let mut c = Catalog::new();
    let data: Vec<u8> = (0..1000u32).map(|i| (i % 251) as u8).collect();
    c.create_firmware(3, "big".to_string(), "1".to_string(), data.clone())
        .unwrap();
    let h = OperationHandler::new();
    // array(3, firmware 3, offset 900, length 200)
    let (opc, payload) = h.handle_operation(&mut c, 5, 10, &[0x83, 0x03, 0x19, 0x03, 0x84, 0x18, 0xC8]);
    assert_eq!(opc, 11);
    // array(4, 3, 900, 100, bytes(100))
    let mut expected = vec![0x84, 0x03, 0x19, 0x03, 0x84, 0x18, 0x64, 0x58, 0x64];
    expected.extend_from_slice(&data[900..1000]);
    assert_eq!(payload, expected);
}

#[test]
fn get_firmware_read_past_end_is_empty() {
    let mut c = Catalog::new();
    c.create_firmware(3, "big".to_string(), "1".to_string(), vec![7; 1000])
        .unwrap();
    let h = OperationHandler::new();
    // offset 1000 == size, length 50
    let (opc, payload) = h.handle_operation(&mut c, 5, 10, &[0x83, 0x03, 0x19, 0x03, 0xE8, 0x18, 0x32]);
    assert_eq!(opc, 11);
    assert_eq!(payload, vec![0x84, 0x03, 0x19, 0x03, 0xE8, 0x00, 0x40]);
}

#[test]
fn get_firmware_errors() {
    let mut c = Catalog::new();
    c.create_firmware(3, "big".to_string(), "1".to_string(), vec![7; 10])
        .unwrap();
    let h = OperationHandler::new();
    let (opc, payload) = h.handle_operation(&mut c, 5, 10, &[0x83, 0x08, 0x00, 0x01]);
    assert_eq!((opc, payload), (1, vec![0x81, 0x05]));
    // length over one mebibyte
    let (opc2, payload2) =
        h.handle_operation(&mut c, 5, 10, &[0x83, 0x03, 0x00, 0x1A, 0x00, 0x10, 0x00, 0x01]);
    assert_eq!((opc2, payload2), (1, vec![0x81, 0x00]));
}

#[test]
fn read_range_windows() {
    let data: Vec<u8> = (0..10u8).collect();
    assert_eq!(read_range(&data, 0, 4), vec![0, 1, 2, 3]);
    assert_eq!(read_range(&data, 8, 4), vec![8, 9]);
    assert_eq!(read_range(&data, 10, 4), Vec::<u8>::new());
    assert_eq!(read_range(&data, 12, 4), Vec::<u8>::new());
    assert_eq!(read_range(&data, 0, 0), Vec::<u8>::new());
}

#[test]
fn firmware_with_given_file_id_is_exact() {
    let mut c = Catalog::new();
    let fid = "0123456789abcdef0123456789abcdef0123".to_string();
    c.create_firmware_with_file_id(1, "a".to_string(), "1".to_string(), vec![1, 2], fid.clone())
        .unwrap();
    assert_eq!(c.firmwares[0].file_id, fid);
    assert_eq!(c.blobs[0].data, vec![1, 2]);
    // the same file id cannot be stored twice
    let clash =
        c.create_firmware_with_file_id(2, "b".to_string(), "1".to_string(), vec![3], fid.clone());
    assert_eq!(clash.err(), Some(AdminError::Internal));
}

#[test]
fn hex_encoding_is_lowercase_pairs() {
    assert_eq!(hex_lower(&[]), Vec::<u8>::new());
    assert_eq!(hex_lower(&[0x0F, 0xA0]), b"0fa0".to_vec());
    assert_eq!(hex_lower(&[0x00, 0xFF]), b"00ff".to_vec());
}

#[test]
fn fresh_file_ids_differ() {
    let mut c = Catalog::new();
    c.create_firmware(1, "a".to_string(), "1".to_string(), vec![1])
        .unwrap();
    c.create_firmware(2, "b".to_string(), "1".to_string(), vec![2])
        .unwrap();
    assert_ne!(c.firmwares[0].file_id, c.firmwares[1].file_id);
}

#[test]
fn wiping_clears_key_material() {
    let mut h = CoseHandler::new();
    h.key_bytes = vec![0x42; 16];
    h.wipe_key();
    assert!(h.key_bytes.is_empty());
}

#[test]
fn device_creation_validation() {
    let mut c = Catalog::new();
    c.create_device_type(1, "sensor".to_string()).unwrap();
    c.create_firmware(9, "base".to_string(), "1".to_string(), vec![1])
        .unwrap();
    assert_eq!(
        c.create_device(5, "".to_string(), 1, None, 9, DeviceStatus::Active).err(),
        Some(AdminError::BadRequest)
    );
    assert_eq!(
        c.create_device(5, "x".to_string(), 2, None, 9, DeviceStatus::Active).err(),
        Some(AdminError::NotFound)
    );
    assert_eq!(
        c.create_device(5, "x".to_string(), 1, None, 8, DeviceStatus::Active).err(),
        Some(AdminError::NotFound)
    );
    c.create_device(5, "x".to_string(), 1, None, 9, DeviceStatus::Active)
        .unwrap();
    assert_eq!(
        c.create_device(5, "y".to_string(), 1, None, 9, DeviceStatus::Active).err(),
        Some(AdminError::Conflict)
    );
}
