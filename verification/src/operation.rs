//! The operations carried inside an envelope: opcodes, error codes, and
//! the fixed array-shaped payload of each request and response.

use crate::cbor::{
    enc_bytes, enc_head, head, parse_container, parse_uint, read_container, read_uint, MAJOR_ARRAY,
    MAJOR_BYTES, MAJOR_UINT, NULL_BYTE,
};
use vstd::prelude::*;

verus! {

/// The error codes an opcode-1 response can carry.
#[derive(Clone, Copy, PartialEq, Eq, Structural, Debug)]
pub enum OperationError {
    InvalidOperation,
    DecodingError,
    EncodingError,
    UnknownParameter,
    DeviceNotFound,
    FirmwareNotFound,
    InternalError,
}

impl OperationError {
    /// The numeric code on the wire.
    pub open spec fn spec_code(self) -> u16 {
        match self {
            OperationError::InvalidOperation => 0,
            OperationError::DecodingError => 1,
            OperationError::EncodingError => 2,
            OperationError::UnknownParameter => 3,
            OperationError::DeviceNotFound => 4,
            OperationError::FirmwareNotFound => 5,
            OperationError::InternalError => 6,
        }
    }

    /// The numeric code on the wire.
    pub fn code(self) -> (r: u16)
        ensures
            r == self.spec_code(),
    {
        match self {
            OperationError::InvalidOperation => 0,
            OperationError::DecodingError => 1,
            OperationError::EncodingError => 2,
            OperationError::UnknownParameter => 3,
            OperationError::DeviceNotFound => 4,
            OperationError::FirmwareNotFound => 5,
            OperationError::InternalError => 6,
        }
    }

    /// The error a code read off the wire stands for: anything outside
    /// the known set counts as an invalid operation.
    pub open spec fn spec_from_code(value: u16) -> OperationError {
        if value == 1 {
            OperationError::DecodingError
        } else if value == 2 {
            OperationError::EncodingError
        } else if value == 3 {
            OperationError::UnknownParameter
        } else if value == 4 {
            OperationError::DeviceNotFound
        } else if value == 5 {
            OperationError::FirmwareNotFound
        } else if value == 6 {
            OperationError::InternalError
        } else {
            OperationError::InvalidOperation
        }
    }

    /// The error a code read off the wire stands for.
    pub fn from_code(value: u16) -> (r: OperationError)
        ensures
            r == OperationError::spec_from_code(value),
    {
        if value == 1 {
            OperationError::DecodingError
        } else if value == 2 {
            OperationError::EncodingError
        } else if value == 3 {
            OperationError::UnknownParameter
        } else if value == 4 {
            OperationError::DeviceNotFound
        } else if value == 5 {
            OperationError::FirmwareNotFound
        } else if value == 6 {
            OperationError::InternalError
        } else {
            OperationError::InvalidOperation
        }
    }
}

/// The operations the protocol knows; the parameter operations are
/// reserved and answered as invalid.
#[derive(Clone, Copy, PartialEq, Eq, Structural, Debug)]
pub enum OperationType {
    Invalid,
    Error,
    GetParameterRequest,
    GetParameterResponse,
    SetParameterRequest,
    SetParameterResponse,
    GetDeviceInfoRequest,
    GetDeviceInfoResponse,
    SetDeviceInfoRequest,
    SetDeviceInfoResponse,
    GetFirmwareRequest,
    GetFirmwareResponse,
}

impl OperationType {
    /// The opcode on the wire.
    pub open spec fn spec_code(self) -> u16 {
        match self {
            OperationType::Invalid => 0,
            OperationType::Error => 1,
            OperationType::GetParameterRequest => 2,
            OperationType::GetParameterResponse => 3,
            OperationType::SetParameterRequest => 4,
            OperationType::SetParameterResponse => 5,
            OperationType::GetDeviceInfoRequest => 6,
            OperationType::GetDeviceInfoResponse => 7,
            OperationType::SetDeviceInfoRequest => 8,
            OperationType::SetDeviceInfoResponse => 9,
            OperationType::GetFirmwareRequest => 10,
            OperationType::GetFirmwareResponse => 11,
        }
    }

    /// The opcode on the wire.
    pub fn code(self) -> (r: u16)
        ensures
            r == self.spec_code(),
    {
        match self {
            OperationType::Invalid => 0,
            OperationType::Error => 1,
            OperationType::GetParameterRequest => 2,
            OperationType::GetParameterResponse => 3,
            OperationType::SetParameterRequest => 4,
            OperationType::SetParameterResponse => 5,
            OperationType::GetDeviceInfoRequest => 6,
            OperationType::GetDeviceInfoResponse => 7,
            OperationType::SetDeviceInfoRequest => 8,
            OperationType::SetDeviceInfoResponse => 9,
            OperationType::GetFirmwareRequest => 10,
            OperationType::GetFirmwareResponse => 11,
        }
    }

    /// The operation an opcode read off the wire names.
    pub open spec fn spec_from_code(value: u16) -> OperationType {
        if value == 1 {
            OperationType::Error
        } else if value == 2 {
            OperationType::GetParameterRequest
        } else if value == 3 {
            OperationType::GetParameterResponse
        } else if value == 4 {
            OperationType::SetParameterRequest
        } else if value == 5 {
            OperationType::SetParameterResponse
        } else if value == 6 {
            OperationType::GetDeviceInfoRequest
        } else if value == 7 {
            OperationType::GetDeviceInfoResponse
        } else if value == 8 {
            OperationType::SetDeviceInfoRequest
        } else if value == 9 {
            OperationType::SetDeviceInfoResponse
        } else if value == 10 {
            OperationType::GetFirmwareRequest
        } else if value == 11 {
            OperationType::GetFirmwareResponse
        } else {
            OperationType::Invalid
        }
    }

    /// The operation an opcode read off the wire names.
    pub fn from_code(value: u16) -> (r: OperationType)
        ensures
            r == OperationType::spec_from_code(value),
    {
        if value == 1 {
            OperationType::Error
        } else if value == 2 {
            OperationType::GetParameterRequest
        } else if value == 3 {
            OperationType::GetParameterResponse
        } else if value == 4 {
            OperationType::SetParameterRequest
        } else if value == 5 {
            OperationType::SetParameterResponse
        } else if value == 6 {
            OperationType::GetDeviceInfoRequest
        } else if value == 7 {
            OperationType::GetDeviceInfoResponse
        } else if value == 8 {
            OperationType::SetDeviceInfoRequest
        } else if value == 9 {
            OperationType::SetDeviceInfoResponse
        } else if value == 10 {
            OperationType::GetFirmwareRequest
        } else if value == 11 {
            OperationType::GetFirmwareResponse
        } else {
            OperationType::Invalid
        }
    }
}

/// A device-info request in the middle of decoding.
pub struct GetDeviceInfoRequestDecode {
    pub device_id: Option<u32>,
}

/// A request for a device's own record.
pub struct GetDeviceInfoRequest {
    pub device_id: u32,
}

/// The answer: current firmware (if any), desired firmware, status byte.
pub struct GetDeviceInfoResponse {
    pub firmware: Option<u32>,
    pub desired_firmware: u32,
    pub status: u8,
}

/// A device-info update in the middle of decoding.
pub struct SetDeviceInfoRequestDecode {
    pub firmware: Option<u32>,
    pub status: Option<u8>,
}

/// A device's report of its firmware and status.
pub struct SetDeviceInfoRequest {
    pub firmware: u32,
    pub status: u8,
}

/// The answer: the row after the update.
pub struct SetDeviceInfoResponse {
    pub firmware: u32,
    pub desired_firmware: u32,
    pub status: u8,
}

/// A firmware-range request in the middle of decoding.
pub struct GetFirmwareRequestDecode {
    pub firmware: Option<u32>,
    pub offset: Option<u32>,
    pub length: Option<u32>,
}

/// A range pull from a firmware image.
pub struct GetFirmwareRequest {
    pub firmware: u32,
    pub offset: u32,
    pub length: u32,
}

/// The answer: which image, where, how much actually read, and the bytes.
pub struct GetFirmwareResponse {
    pub firmware: u32,
    pub offset: u32,
    pub length: u32,
    pub data: Vec<u8>,
}

/// What a device-info request decodes to: a one-element array holding
/// the device id.
pub open spec fn spec_decode_get_device_info_request(s: Seq<u8>) -> Option<u32> {
    match parse_container(s, 0, MAJOR_ARRAY) {
        Some((Some(n), p)) => if n != 1 {
            None
        } else {
            match parse_uint(s, p, 26) {
                Some((v, _)) => Some(v as u32),
                None => None,
            }
        },
        _ => None,
    }
}

/// Decode a device-info request, as the matching spec function says.
pub fn decode_get_device_info_request(operation: &[u8]) -> (r: Result<
    GetDeviceInfoRequest,
    OperationError,
>)
    ensures
        match r {
            Ok(q) => spec_decode_get_device_info_request(operation@) == Some(q.device_id),
            Err(e) => spec_decode_get_device_info_request(operation@) is None && e
                == OperationError::DecodingError,
        },
{
    let (cnt, p) = match read_container(operation, 0, MAJOR_ARRAY) {
        Some(v) => v,
        None => {
            return Err(OperationError::DecodingError);
        },
    };
    let one = match cnt {
        Some(n) => n == 1,
        None => false,
    };
    if !one {
        return Err(OperationError::DecodingError);
    }
    let partial = GetDeviceInfoRequestDecode {
        device_id: match read_uint(operation, p, 26) {
            Some((v, _)) => Some(v as u32),
            None => None,
        },
    };
    match partial.device_id {
        Some(id) => Ok(GetDeviceInfoRequest { device_id: id }),
        None => Err(OperationError::DecodingError),
    }
}

/// The bytes of a device-info response.
pub open spec fn spec_get_device_info_response_bytes(
    firmware: Option<u32>,
    desired_firmware: u32,
    status: u8,
) -> Seq<u8> {
    head(MAJOR_ARRAY, 3) + (match firmware {
        Some(f) => head(MAJOR_UINT, f as u64),
        None => seq![NULL_BYTE],
    }) + head(MAJOR_UINT, desired_firmware as u64) + head(MAJOR_UINT, status as u64)
}

/// Encode a device-info response.
pub fn encode_get_device_info_response(device_info_response: &GetDeviceInfoResponse) -> (r: Vec<u8>)
    ensures
        r@ == spec_get_device_info_response_bytes(
            device_info_response.firmware,
            device_info_response.desired_firmware,
            device_info_response.status,
        ),
{
    let mut buf: Vec<u8> = Vec::new();
    enc_head(&mut buf, MAJOR_ARRAY, 3);
    match device_info_response.firmware {
        Some(f) => enc_head(&mut buf, MAJOR_UINT, f as u64),
        None => buf.push(NULL_BYTE),
    }
    enc_head(&mut buf, MAJOR_UINT, device_info_response.desired_firmware as u64);
    enc_head(&mut buf, MAJOR_UINT, device_info_response.status as u64);
    assert(buf@ =~= spec_get_device_info_response_bytes(
        device_info_response.firmware,
        device_info_response.desired_firmware,
        device_info_response.status,
    ));
    buf
}

/// What a device-info update decodes to: a two-element array of the
/// firmware id and the status byte.
pub open spec fn spec_decode_set_device_info_request(s: Seq<u8>) -> Option<(u32, u8)> {
    match parse_container(s, 0, MAJOR_ARRAY) {
        Some((Some(n), p)) => if n != 2 {
            None
        } else {
            match parse_uint(s, p, 26) {
                Some((fw, p1)) => match parse_uint(s, p1, 24) {
                    Some((st, _)) => Some(((fw as u32), (st as u8))),
                    None => None,
                },
                None => None,
            }
        },
        _ => None,
    }
}

/// Decode a device-info update, as the matching spec function says.
pub fn decode_set_device_info_request(operation: &[u8]) -> (r: Result<
    SetDeviceInfoRequest,
    OperationError,
>)
    ensures
        match r {
            Ok(q) => spec_decode_set_device_info_request(operation@) == Some((q.firmware, q.status)),
            Err(e) => spec_decode_set_device_info_request(operation@) is None && e
                == OperationError::DecodingError,
        },
{
    let (cnt, p) = match read_container(operation, 0, MAJOR_ARRAY) {
        Some(v) => v,
        None => {
            return Err(OperationError::DecodingError);
        },
    };
    let two = match cnt {
        Some(n) => n == 2,
        None => false,
    };
    if !two {
        return Err(OperationError::DecodingError);
    }
    let (fw, p1) = match read_uint(operation, p, 26) {
        Some(v) => v,
        None => {
            return Err(OperationError::DecodingError);
        },
    };
    let partial = SetDeviceInfoRequestDecode {
        firmware: Some(fw as u32),
        status: match read_uint(operation, p1, 24) {
            Some((st, _)) => Some(st as u8),
            None => None,
        },
    };
    match (partial.firmware, partial.status) {
        (Some(firmware), Some(status)) => Ok(SetDeviceInfoRequest { firmware, status }),
        _ => Err(OperationError::DecodingError),
    }
}

/// The bytes of a device-info update response.
pub open spec fn spec_set_device_info_response_bytes(
    firmware: u32,
    desired_firmware: u32,
    status: u8,
) -> Seq<u8> {
    head(MAJOR_ARRAY, 3) + head(MAJOR_UINT, firmware as u64) + head(
        MAJOR_UINT,
        desired_firmware as u64,
    ) + head(MAJOR_UINT, status as u64)
}

/// Encode a device-info update response.
pub fn encode_set_device_info_response(device_info_response: &SetDeviceInfoResponse) -> (r: Vec<u8>)
    ensures
        r@ == spec_set_device_info_response_bytes(
            device_info_response.firmware,
            device_info_response.desired_firmware,
            device_info_response.status,
        ),
{
    let mut buf: Vec<u8> = Vec::new();
    enc_head(&mut buf, MAJOR_ARRAY, 3);
    enc_head(&mut buf, MAJOR_UINT, device_info_response.firmware as u64);
    enc_head(&mut buf, MAJOR_UINT, device_info_response.desired_firmware as u64);
    enc_head(&mut buf, MAJOR_UINT, device_info_response.status as u64);
    assert(buf@ =~= spec_set_device_info_response_bytes(
        device_info_response.firmware,
        device_info_response.desired_firmware,
        device_info_response.status,
    ));
    buf
}

/// What a firmware-range request decodes to: a three-element array of
/// the firmware id, the offset, and the length.
pub open spec fn spec_decode_get_firmware_request(s: Seq<u8>) -> Option<(u32, u32, u32)> {
    match parse_container(s, 0, MAJOR_ARRAY) {
        Some((Some(n), p)) => if n != 3 {
            None
        } else {
            match parse_uint(s, p, 26) {
                Some((fw, p1)) => match parse_uint(s, p1, 26) {
                    Some((off, p2)) => match parse_uint(s, p2, 26) {
                        Some((len, _)) => Some(((fw as u32), (off as u32), (len as u32))),
                        None => None,
                    },
                    None => None,
                },
                None => None,
            }
        },
        _ => None,
    }
}

/// Decode a firmware-range request, as the matching spec function says.
pub fn decode_get_firmware_request(operation: &[u8]) -> (r: Result<
    GetFirmwareRequest,
    OperationError,
>)
    ensures
        match r {
            Ok(q) => spec_decode_get_firmware_request(operation@) == Some(
                (q.firmware, q.offset, q.length),
            ),
            Err(e) => spec_decode_get_firmware_request(operation@) is None && e
                == OperationError::DecodingError,
        },
{
    let (cnt, p) = match read_container(operation, 0, MAJOR_ARRAY) {
        Some(v) => v,
        None => {
            return Err(OperationError::DecodingError);
        },
    };
    let three = match cnt {
        Some(n) => n == 3,
        None => false,
    };
    if !three {
        return Err(OperationError::DecodingError);
    }
    let (fw, p1) = match read_uint(operation, p, 26) {
        Some(v) => v,
        None => {
            return Err(OperationError::DecodingError);
        },
    };
    let (off, p2) = match read_uint(operation, p1, 26) {
        Some(v) => v,
        None => {
            return Err(OperationError::DecodingError);
        },
    };
    let partial = GetFirmwareRequestDecode {
        firmware: Some(fw as u32),
        offset: Some(off as u32),
        length: match read_uint(operation, p2, 26) {
            Some((len, _)) => Some(len as u32),
            None => None,
        },
    };
    match (partial.firmware, partial.offset, partial.length) {
        (Some(firmware), Some(offset), Some(length)) => Ok(
            GetFirmwareRequest { firmware, offset, length },
        ),
        _ => Err(OperationError::DecodingError),
    }
}

/// The bytes of a firmware-range response.
pub open spec fn spec_get_firmware_response_bytes(
    firmware: u32,
    offset: u32,
    length: u32,
    data: Seq<u8>,
) -> Seq<u8> {
    head(MAJOR_ARRAY, 4) + head(MAJOR_UINT, firmware as u64) + head(MAJOR_UINT, offset as u64)
        + head(MAJOR_UINT, length as u64) + head(MAJOR_BYTES, data.len() as u64) + data
}

/// Encode a firmware-range response.
pub fn encode_get_firmware_response(firmware_response: &GetFirmwareResponse) -> (r: Vec<u8>)
    requires
        firmware_response.data@.len() <= 0x10_0000,
    ensures
        r@ == spec_get_firmware_response_bytes(
            firmware_response.firmware,
            firmware_response.offset,
            firmware_response.length,
            firmware_response.data@,
        ),
{
    let mut buf: Vec<u8> = Vec::new();
    enc_head(&mut buf, MAJOR_ARRAY, 4);
    enc_head(&mut buf, MAJOR_UINT, firmware_response.firmware as u64);
    enc_head(&mut buf, MAJOR_UINT, firmware_response.offset as u64);
    enc_head(&mut buf, MAJOR_UINT, firmware_response.length as u64);
    enc_bytes(&mut buf, firmware_response.data.as_slice());
    assert(buf@ =~= spec_get_firmware_response_bytes(
        firmware_response.firmware,
        firmware_response.offset,
        firmware_response.length,
        firmware_response.data@,
    ));
    buf
}

/// The bytes of an error operation: a one-element array with the code.
pub open spec fn spec_operation_error_bytes(error: OperationError) -> Seq<u8> {
    head(MAJOR_ARRAY, 1) + head(MAJOR_UINT, error.spec_code() as u64)
}

/// Encode an error operation.
pub fn encode_operation_error(error: OperationError) -> (r: Vec<u8>)
    ensures
        r@ == spec_operation_error_bytes(error),
{
    let mut buf: Vec<u8> = Vec::new();
    enc_head(&mut buf, MAJOR_ARRAY, 1);
    enc_head(&mut buf, MAJOR_UINT, error.code() as u64);
    assert(buf@ =~= spec_operation_error_bytes(error));
    buf
}

/// What an error operation decodes to: any code outside the known set
/// reads as an invalid operation.
pub open spec fn spec_decode_operation_error(s: Seq<u8>) -> Option<OperationError> {
    match parse_container(s, 0, MAJOR_ARRAY) {
        Some((Some(n), p)) => if n != 1 {
            None
        } else {
            match parse_uint(s, p, 25) {
                Some((v, _)) => Some(OperationError::spec_from_code(v as u16)),
                None => None,
            }
        },
        _ => None,
    }
}

/// Decode an error operation, as the matching spec function says.
pub fn decode_operation_error(operation: &[u8]) -> (r: Result<OperationError, OperationError>)
    ensures
        match r {
            Ok(q) => spec_decode_operation_error(operation@) == Some(q),
            Err(e) => spec_decode_operation_error(operation@) is None && e
                == OperationError::DecodingError,
        },
{
    let (cnt, p) = match read_container(operation, 0, MAJOR_ARRAY) {
        Some(v) => v,
        None => {
            return Err(OperationError::DecodingError);
        },
    };
    let one = match cnt {
        Some(n) => n == 1,
        None => false,
    };
    if !one {
        return Err(OperationError::DecodingError);
    }
    match read_uint(operation, p, 25) {
        Some((v, _)) => Ok(OperationError::from_code(v as u16)),
        None => Err(OperationError::DecodingError),
    }
}

} // verus!
