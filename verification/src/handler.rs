//! The operation dispatcher: map an opcode to its handler, run it against
//! the catalog, and build the response payload.  What each dispatch
//! answers, and how it changes the device table, is a function of the
//! catalog, the device, the opcode and the payload
//! (`spec_handle_operation`, `spec_handle_devices`); every handler-level
//! failure becomes an error operation (opcode 1) with one of the fixed
//! codes.

use crate::catalog::{
    has_device, has_firmware, lemma_blob_of_firmware, lemma_device_is_chosen,
    lemma_firmware_is_chosen, AdminError, Catalog, Device, DeviceStatus,
};
use crate::operation::{
    decode_get_device_info_request, decode_get_firmware_request, decode_set_device_info_request,
    encode_get_device_info_response, encode_get_firmware_response, encode_operation_error,
    encode_set_device_info_response, spec_decode_get_device_info_request,
    spec_decode_get_firmware_request, spec_decode_set_device_info_request,
    spec_get_device_info_response_bytes, spec_get_firmware_response_bytes,
    spec_operation_error_bytes, spec_set_device_info_response_bytes, GetDeviceInfoResponse,
    GetFirmwareResponse, OperationError, OperationType, SetDeviceInfoResponse,
};
use vstd::prelude::*;

verus! {

/// The requested window of a stored image: empty from the end of the
/// image, otherwise up to `length` bytes from `offset`, clipped at the
/// end.  A result shorter than `length` means the end was reached.
pub open spec fn spec_read_range(data: Seq<u8>, offset: int, length: int) -> Seq<u8> {
    if offset >= data.len() {
        Seq::empty()
    } else if offset + length >= data.len() {
        data.subrange(offset, data.len() as int)
    } else {
        data.subrange(offset, offset + length)
    }
}

/// Read the requested window of a stored image, as `spec_read_range`
/// describes.
pub fn read_range(data: &Vec<u8>, offset: u32, length: u32) -> (r: Vec<u8>)
    ensures
        r@ == spec_read_range(data@, offset as int, length as int),
        r@.len() <= length,
{
    let dlen = data.len();
    if offset as usize >= dlen {
        return Vec::new();
    }
    let start: usize = offset as usize;
    let want: usize = length as usize;
    let end: usize = if dlen - start >= want {
        start + want
    } else {
        dlen
    };
    vstd::slice::slice_to_vec(vstd::slice::slice_subrange(data.as_slice(), start, end))
}

/// An error operation: the response of a failed dispatch.
pub open spec fn spec_error_reply(error: OperationError) -> (u16, Seq<u8>) {
    (OperationType::Error.spec_code(), spec_operation_error_bytes(error))
}

/// The status a valid wire byte stands for.
pub open spec fn spec_status_of_code(code: u8) -> DeviceStatus {
    if code == 0 {
        DeviceStatus::Active
    } else if code == 1 {
        DeviceStatus::Inactive
    } else {
        DeviceStatus::Maintenance
    }
}

/// What a device's request for its own record answers.
pub open spec fn spec_handle_get_device_info(c: Catalog, device_id: u32, operation: Seq<u8>) -> (
    u16,
    Seq<u8>,
) {
    match spec_decode_get_device_info_request(operation) {
        None => spec_error_reply(OperationError::DecodingError),
        Some(_) => if !has_device(c.devices@, device_id) {
            spec_error_reply(OperationError::DeviceNotFound)
        } else {
            let i = choose|i: int| 0 <= i < c.devices@.len() && c.devices@[i].id == device_id;
            (
                OperationType::GetDeviceInfoResponse.spec_code(),
                spec_get_device_info_response_bytes(
                    c.devices@[i].firmware,
                    c.devices@[i].desired_firmware,
                    c.devices@[i].status.spec_code(),
                ),
            )
        },
    }
}

/// What a device's update of its firmware and status answers.
pub open spec fn spec_handle_set_device_info(c: Catalog, device_id: u32, operation: Seq<u8>) -> (
    u16,
    Seq<u8>,
) {
    match spec_decode_set_device_info_request(operation) {
        None => spec_error_reply(OperationError::DecodingError),
        Some(req) => if req.1 > 2 {
            spec_error_reply(OperationError::InvalidOperation)
        } else if !has_device(c.devices@, device_id) || !has_firmware(c.firmwares@, req.0) {
            spec_error_reply(OperationError::InternalError)
        } else {
            let i = choose|i: int| 0 <= i < c.devices@.len() && c.devices@[i].id == device_id;
            (
                OperationType::SetDeviceInfoResponse.spec_code(),
                spec_set_device_info_response_bytes(
                    req.0,
                    c.devices@[i].desired_firmware,
                    req.1,
                ),
            )
        },
    }
}

/// The device table after a device's update of its firmware and status:
/// changed only when the update goes through.
pub open spec fn spec_set_device_info_devices(
    c: Catalog,
    device_id: u32,
    operation: Seq<u8>,
) -> Seq<Device> {
    match spec_decode_set_device_info_request(operation) {
        None => c.devices@,
        Some(req) => if req.1 > 2 || !has_device(c.devices@, device_id) || !has_firmware(
            c.firmwares@,
            req.0,
        ) {
            c.devices@
        } else {
            let i = choose|i: int| 0 <= i < c.devices@.len() && c.devices@[i].id == device_id;
            c.devices@.update(
                i,
                (Device {
                    id: c.devices@[i].id,
                    name: c.devices@[i].name,
                    type_: c.devices@[i].type_,
                    firmware: Some(req.0),
                    desired_firmware: c.devices@[i].desired_firmware,
                    status: spec_status_of_code(req.1),
                }),
            )
        },
    }
}

/// What a range pull from a stored image answers.
pub open spec fn spec_handle_get_firmware(c: Catalog, operation: Seq<u8>) -> (u16, Seq<u8>) {
    match spec_decode_get_firmware_request(operation) {
        None => spec_error_reply(OperationError::DecodingError),
        Some(req) => if !has_firmware(c.firmwares@, req.0) {
            spec_error_reply(OperationError::FirmwareNotFound)
        } else if req.2 > 0x10_0000 {
            spec_error_reply(OperationError::InvalidOperation)
        } else {
            let i = choose|i: int| 0 <= i < c.firmwares@.len() && c.firmwares@[i].id == req.0;
            let data = spec_read_range(c.blobs@[i].data@, req.1 as int, req.2 as int);
            (
                OperationType::GetFirmwareResponse.spec_code(),
                spec_get_firmware_response_bytes(req.0, req.1, data.len() as u32, data),
            )
        },
    }
}

/// What one dispatch answers: the response opcode and payload.
pub open spec fn spec_handle_operation(
    c: Catalog,
    device_id: u32,
    opcode: u16,
    operation: Seq<u8>,
) -> (u16, Seq<u8>) {
    let op_type = OperationType::spec_from_code(opcode);
    if op_type == OperationType::GetDeviceInfoRequest {
        spec_handle_get_device_info(c, device_id, operation)
    } else if op_type == OperationType::SetDeviceInfoRequest {
        spec_handle_set_device_info(c, device_id, operation)
    } else if op_type == OperationType::GetFirmwareRequest {
        spec_handle_get_firmware(c, operation)
    } else {
        spec_error_reply(OperationError::InvalidOperation)
    }
}

/// The device table after one dispatch; no dispatch touches any other
/// table.
pub open spec fn spec_handle_devices(
    c: Catalog,
    device_id: u32,
    opcode: u16,
    operation: Seq<u8>,
) -> Seq<Device> {
    if OperationType::spec_from_code(opcode) == OperationType::SetDeviceInfoRequest {
        spec_set_device_info_devices(c, device_id, operation)
    } else {
        c.devices@
    }
}

/// The operation dispatcher.
pub struct OperationHandler {}

impl OperationHandler {
    /// A stateless dispatcher.
    pub fn new() -> (r: OperationHandler)
        ensures
            true,
    {
        OperationHandler {  }
    }

    /// Wrap a handler-level failure as an error operation.
    pub fn handle_error_operation(&self, error: OperationError) -> (r: (u16, Vec<u8>))
        ensures
            (r.0, r.1@) == spec_error_reply(error),
    {
        (OperationType::Error.code(), encode_operation_error(error))
    }

    /// Answer a device's request for its own record.
    #[verifier::rlimit(100)]
    #[verifier::spinoff_prover]
    fn handle_get_device_info(&self, catalog: &Catalog, device_id: u32, operation: &[u8]) -> (r: (
        u16,
        Vec<u8>,
    ))
        requires
            catalog.wf(),
        ensures
            (r.0, r.1@) == spec_handle_get_device_info(*catalog, device_id, operation@),
            r.1@.len() <= 32,
    {
        let _req = match decode_get_device_info_request(operation) {
            Ok(q) => q,
            Err(_) => {
                return self.handle_error_operation(OperationError::DecodingError);
            },
        };
        let di = match catalog.find_device(device_id) {
            Some(i) => i,
            None => {
                return self.handle_error_operation(OperationError::DeviceNotFound);
            },
        };
        proof {
            lemma_device_is_chosen(*catalog, device_id, di as int);
        }
        let response = GetDeviceInfoResponse {
            firmware: catalog.devices[di].firmware,
            desired_firmware: catalog.devices[di].desired_firmware,
            status: catalog.devices[di].status.code(),
        };
        let buf = encode_get_device_info_response(&response);
        (OperationType::GetDeviceInfoResponse.code(), buf)
    }

    /// Apply a device's update of its firmware and status.
    #[verifier::rlimit(100)]
    #[verifier::spinoff_prover]
    fn handle_set_device_info(&self, catalog: &mut Catalog, device_id: u32, operation: &[u8]) -> (r:
        (u16, Vec<u8>))
        requires
            old(catalog).wf(),
        ensures
            final(catalog).wf(),
            (r.0, r.1@) == spec_handle_set_device_info(*old(catalog), device_id, operation@),
            final(catalog).devices@ == spec_set_device_info_devices(
                *old(catalog),
                device_id,
                operation@,
            ),
            final(catalog).device_types == old(catalog).device_types,
            final(catalog).firmwares == old(catalog).firmwares,
            final(catalog).keys == old(catalog).keys,
            final(catalog).key_details == old(catalog).key_details,
            final(catalog).blobs == old(catalog).blobs,
            final(catalog).next_key_id == old(catalog).next_key_id,
            r.1@.len() <= 32,
    {
        let req = match decode_set_device_info_request(operation) {
            Ok(q) => q,
            Err(_) => {
                return self.handle_error_operation(OperationError::DecodingError);
            },
        };
        let status = match DeviceStatus::from_code(req.status) {
            Some(s) => s,
            None => {
                return self.handle_error_operation(OperationError::InvalidOperation);
            },
        };
        let (fw, desired, st) = match catalog.set_device_info(device_id, req.firmware, status) {
            Ok(out) => out,
            Err(AdminError::NotFound) => {
                return self.handle_error_operation(OperationError::InternalError);
            },
            Err(_) => {
                return self.handle_error_operation(OperationError::InternalError);
            },
        };
        proof {
            let i = choose|i: int|
                0 <= i < old(catalog).devices@.len() && old(catalog).devices@[i].id == device_id;
            let j = choose|j: int|
                {
                    &&& 0 <= j < old(catalog).devices@.len()
                    &&& old(catalog).devices@[j].id == device_id
                    &&& (fw, desired, st) == (
                        req.firmware,
                        old(catalog).devices@[j].desired_firmware,
                        status,
                    )
                    &&& catalog.devices@ == old(catalog).devices@.update(
                        j,
                        (Device {
                            id: old(catalog).devices@[j].id,
                            name: old(catalog).devices@[j].name,
                            type_: old(catalog).devices@[j].type_,
                            firmware: Some(req.firmware),
                            desired_firmware: old(catalog).devices@[j].desired_firmware,
                            status,
                        }),
                    )
                };
            lemma_device_is_chosen(*old(catalog), device_id, j);
            assert(j == i);
            assert(status == spec_status_of_code(req.status));
        }
        let response = SetDeviceInfoResponse {
            firmware: fw,
            desired_firmware: desired,
            status: st.code(),
        };
        let buf = encode_set_device_info_response(&response);
        (OperationType::SetDeviceInfoResponse.code(), buf)
    }

    /// Answer a range pull from a stored firmware image.
    #[verifier::rlimit(100)]
    #[verifier::spinoff_prover]
    fn handle_get_firmware(&self, catalog: &Catalog, operation: &[u8]) -> (r: (u16, Vec<u8>))
        requires
            catalog.wf(),
        ensures
            (r.0, r.1@) == spec_handle_get_firmware(*catalog, operation@),
            r.1@.len() <= 0x10_0020,
    {
        let req = match decode_get_firmware_request(operation) {
            Ok(q) => q,
            Err(_) => {
                return self.handle_error_operation(OperationError::DecodingError);
            },
        };
        let fi = match catalog.find_firmware(req.firmware) {
            Some(i) => i,
            None => {
                return self.handle_error_operation(OperationError::FirmwareNotFound);
            },
        };
        if req.length > 0x10_0000 {
            return self.handle_error_operation(OperationError::InvalidOperation);
        }
        let bi = match catalog.find_blob(&catalog.firmwares[fi].file_id) {
            Some(j) => j,
            None => {
                proof {
                    reveal(crate::catalog::catalog_wf);
                    assert(catalog.blobs@[fi as int].file_id@ == catalog.firmwares@[fi as int].file_id@);
                    assert(false);
                }
                return self.handle_error_operation(OperationError::InternalError);
            },
        };
        proof {
            lemma_firmware_is_chosen(*catalog, req.firmware, fi as int);
            lemma_blob_of_firmware(*catalog, fi as int, bi as int);
        }
        let data = read_range(&catalog.blobs[bi].data, req.offset, req.length);
        let read_len = data.len() as u32;
        let response = GetFirmwareResponse {
            firmware: req.firmware,
            offset: req.offset,
            length: read_len,
            data,
        };
        let buf = encode_get_firmware_response(&response);
        proof {
            assert(buf@.len() <= 0x10_0020);
        }
        (OperationType::GetFirmwareResponse.code(), buf)
    }

    /// Dispatch one decrypted operation for the device the envelope
    /// named.  The answer is exactly `spec_handle_operation` on the
    /// catalog as it stood, the device table ends as
    /// `spec_handle_devices` says, and no other table moves.
    #[verifier::rlimit(100)]
    #[verifier::spinoff_prover]
    pub fn handle_operation(
        &self,
        catalog: &mut Catalog,
        device_id: u32,
        opcode: u16,
        operation: &[u8],
    ) -> (r: (u16, Vec<u8>))
        requires
            old(catalog).wf(),
        ensures
            final(catalog).wf(),
            (r.0, r.1@) == spec_handle_operation(*old(catalog), device_id, opcode, operation@),
            final(catalog).devices@ == spec_handle_devices(
                *old(catalog),
                device_id,
                opcode,
                operation@,
            ),
            final(catalog).device_types == old(catalog).device_types,
            final(catalog).firmwares == old(catalog).firmwares,
            final(catalog).keys == old(catalog).keys,
            final(catalog).key_details == old(catalog).key_details,
            final(catalog).blobs == old(catalog).blobs,
            final(catalog).next_key_id == old(catalog).next_key_id,
            r.1@.len() <= 0x10_0020,
    {
        let op_type = OperationType::from_code(opcode);
        match op_type {
            OperationType::GetDeviceInfoRequest => self.handle_get_device_info(
                catalog,
                device_id,
                operation,
            ),
            OperationType::SetDeviceInfoRequest => self.handle_set_device_info(
                catalog,
                device_id,
                operation,
            ),
            OperationType::GetFirmwareRequest => self.handle_get_firmware(catalog, operation),
            _ => self.handle_error_operation(OperationError::InvalidOperation),
        }
    }
}

} // verus!
