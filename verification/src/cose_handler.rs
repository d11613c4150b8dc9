//! Per-request envelope handling: decode a datagram, keep the resolved
//! key for the reply, encode the reply under the same key, and wipe the
//! key material when the request is done.

use crate::catalog::Catalog;
use crate::cose::{
    spec_aad_bytes, spec_alg_of, spec_decode_envelope, spec_encoded_msg, spec_msg_from,
    spec_request_well_formed, KeyType,
};
use crate::crypto::{seal, spec_nonce_len, wipe_bytes};
use crate::handler::{spec_handle_devices, spec_handle_operation, OperationHandler};
use vstd::prelude::*;

verus! {

/// Why a datagram could not be turned around.
#[derive(Clone, Copy, PartialEq, Eq, Structural, Debug)]
pub enum CoseHandlerError {
    DecodingError,
    EncodingError,
}

/// The state one request carries from decode to encode: the device, the
/// key type, and the key material itself (empty until a decode
/// succeeds, wiped when the request is done).
pub struct CoseHandler {
    pub device_id: Option<u32>,
    pub key_type: Option<KeyType>,
    pub key_bytes: Vec<u8>,
}

impl CoseHandler {
    /// The key material, if any, has the algorithms' key length.
    pub open spec fn wf(self) -> bool {
        self.key_bytes@.len() == 0 || self.key_bytes@.len() == 16
    }

    /// A fresh handler with no resolved key.
    pub fn new() -> (r: CoseHandler)
        ensures
            r.wf(),
            r.device_id is None,
            r.key_type is None,
            r.key_bytes@.len() == 0,
    {
        CoseHandler { device_id: None, key_type: None, key_bytes: Vec::new() }
    }

    /// Decode one datagram, keeping the resolved key, device and key
    /// type for the reply.  What a sender built with the device's key
    /// decodes to exactly what that sender put in.
    pub fn decode_msg(
        &mut self,
        catalog: &Catalog,
        device_id: &mut u32,
        opcode: &mut u16,
        msg: &[u8],
    ) -> (r: Result<Vec<u8>, CoseHandlerError>)
        requires
            old(self).wf(),
            catalog.wf(),
            msg@.len() <= 0xFF_FFFF,
        ensures
            final(self).wf(),
            r matches Err(e) ==> e == CoseHandlerError::DecodingError,
            !(spec_decode_envelope(msg@) is Ok) ==> r is Err,
            r matches Ok(pt) ==> spec_decode_envelope(msg@) matches Ok(parts) && {
                &&& *final(device_id) == parts.0.device_id
                &&& *final(opcode) == parts.0.opcode
                &&& final(self).device_id == Some(parts.0.device_id)
                &&& final(self).key_type == Some(parts.0.encryption_algorithm)
                &&& (crate::catalog::spec_key_for_device(
                    *catalog,
                    parts.0.device_id,
                    parts.0.encryption_algorithm,
                ) matches Ok(k) && final(self).key_bytes@ == k && parts.2 == seal(
                    spec_alg_of(parts.0.encryption_algorithm),
                    k,
                    parts.0.nonce,
                    spec_aad_bytes(parts.1),
                    pt@,
                ))
            },
            forall|kt: KeyType, dev: u32, op: u16, pt: Seq<u8>, nonce: Seq<u8>|
                spec_request_well_formed(*catalog, kt, dev, op, pt, nonce) && msg@
                    == #[trigger] spec_msg_from(*catalog, kt, dev, op, pt, nonce) ==> (r matches Ok(q)
                    && q@ == pt && *final(device_id) == dev && *final(opcode) == op
                    && final(self).key_type == Some(kt)),
    {
        match crate::cose::decode_msg(catalog, msg) {
            Ok(d) => {
                proof {
                    crate::catalog::lemma_resolved_key_len(*catalog, d.device_id, d.key_type);
                }
                *device_id = d.device_id;
                *opcode = d.opcode;
                self.device_id = Some(d.device_id);
                self.key_type = Some(d.key_type);
                self.key_bytes = d.key;
                Ok(d.plaintext)
            },
            Err(_) => Err(CoseHandlerError::DecodingError),
        }
    }

    /// Encode a reply under the key resolved at decode time: the same
    /// device, the same algorithm, no second catalog lookup.
    pub fn encode_msg(&self, operation_id: u16, operation: &[u8]) -> (r: Result<
        Vec<u8>,
        CoseHandlerError,
    >)
        requires
            self.wf(),
            operation@.len() <= 0xFFFF_FF00,
        ensures
            (self.device_id is None || self.key_type is None || self.key_bytes@.len() != 16) ==> r
                == Err::<Vec<u8>, CoseHandlerError>(CoseHandlerError::EncodingError),
            r matches Err(e) ==> e == CoseHandlerError::EncodingError,
            r matches Ok(m) ==> (self.device_id matches Some(dev) && self.key_type matches Some(kt)
                && exists|nonce: Seq<u8>|
                nonce.len() == spec_nonce_len(spec_alg_of(kt)) && m@ == spec_encoded_msg(
                    kt,
                    self.key_bytes@,
                    dev,
                    operation_id,
                    operation@,
                    nonce,
                )),
    {
        let dev = match self.device_id {
            Some(d) => d,
            None => {
                return Err(CoseHandlerError::EncodingError);
            },
        };
        let kt = match self.key_type {
            Some(k) => k,
            None => {
                return Err(CoseHandlerError::EncodingError);
            },
        };
        if self.key_bytes.len() != 16 {
            return Err(CoseHandlerError::EncodingError);
        }
        match crate::cose::encode_msg(self.key_bytes.as_slice(), kt, dev, operation_id, operation) {
            Ok(m) => Ok(m),
            Err(_) => Err(CoseHandlerError::EncodingError),
        }
    }

    /// Overwrite and release the key material held for this request.
    pub fn wipe_key(&mut self)
        ensures
            final(self).wf(),
            final(self).key_bytes@.len() == 0,
            final(self).device_id == old(self).device_id,
            final(self).key_type == old(self).key_type,
    {
        wipe_bytes(&mut self.key_bytes);
    }
}

/// Turn one inbound datagram around: decode and decrypt it, dispatch the
/// operation, encode the reply under the same key, and wipe the key.  A
/// datagram that cannot be decoded is dropped without an answer and
/// changes nothing; a decoded one is dispatched, the device table ends as
/// the dispatcher says, and any reply carries exactly the dispatcher's
/// answer, sealed for the same device under the same key.  Once a
/// datagram is dispatched, a reply is withheld only when the random
/// source fails.
pub fn process_datagram(catalog: &mut Catalog, msg: &[u8]) -> (r: Option<Vec<u8>>)
    requires
        old(catalog).wf(),
        msg@.len() <= 0xFF_FFFF,
    ensures
        final(catalog).wf(),
        final(catalog).device_types == old(catalog).device_types,
        final(catalog).firmwares == old(catalog).firmwares,
        final(catalog).keys == old(catalog).keys,
        final(catalog).key_details == old(catalog).key_details,
        final(catalog).blobs == old(catalog).blobs,
        final(catalog).next_key_id == old(catalog).next_key_id,
        !(spec_decode_envelope(msg@) is Ok) ==> r is None && *final(catalog) == *old(catalog),
        spec_decode_envelope(msg@) matches Ok(parts) && crate::catalog::spec_key_for_device(
            *old(catalog),
            parts.0.device_id,
            parts.0.encryption_algorithm,
        ) is Err ==> r is None && *final(catalog) == *old(catalog),
        r matches Some(m) ==> spec_decode_envelope(msg@) matches Ok(parts) && (
        crate::catalog::spec_key_for_device(
            *old(catalog),
            parts.0.device_id,
            parts.0.encryption_algorithm,
        ) matches Ok(k) && exists|pt: Seq<u8>, nonce: Seq<u8>|
            {
                &&& parts.2 == seal(
                    spec_alg_of(parts.0.encryption_algorithm),
                    k,
                    parts.0.nonce,
                    spec_aad_bytes(parts.1),
                    pt,
                )
                &&& final(catalog).devices@ == spec_handle_devices(
                    *old(catalog),
                    parts.0.device_id,
                    parts.0.opcode,
                    pt,
                )
                &&& nonce.len() == spec_nonce_len(spec_alg_of(parts.0.encryption_algorithm))
                &&& m@ == spec_encoded_msg(
                    parts.0.encryption_algorithm,
                    k,
                    parts.0.device_id,
                    spec_handle_operation(
                        *old(catalog),
                        parts.0.device_id,
                        parts.0.opcode,
                        pt,
                    ).0,
                    spec_handle_operation(
                        *old(catalog),
                        parts.0.device_id,
                        parts.0.opcode,
                        pt,
                    ).1,
                    nonce,
                )
            }),
        forall|kt: KeyType, dev: u32, op: u16, pt: Seq<u8>, nonce: Seq<u8>|
            spec_request_well_formed(*old(catalog), kt, dev, op, pt, nonce) && msg@
                == #[trigger] spec_msg_from(*old(catalog), kt, dev, op, pt, nonce) ==> (
            final(catalog).devices@ == spec_handle_devices(*old(catalog), dev, op, pt) && (r matches Some(m)
                ==> exists|nonce2: Seq<u8>|
                nonce2.len() == spec_nonce_len(spec_alg_of(kt)) && m@ == spec_encoded_msg(
                    kt,
                    crate::catalog::spec_key_for_device(*old(catalog), dev, kt)->Ok_0,
                    dev,
                    spec_handle_operation(*old(catalog), dev, op, pt).0,
                    spec_handle_operation(*old(catalog), dev, op, pt).1,
                    nonce2,
                ))),
{
    let mut cose_handler = CoseHandler::new();
    let operation_handler = OperationHandler::new();
    let mut device_id: u32 = 0;
    let mut opcode: u16 = 0;
    let operation_bytes = match cose_handler.decode_msg(catalog, &mut device_id, &mut opcode, msg) {
        Ok(op) => op,
        Err(_) => {
            proof {
                assert forall|kt: KeyType, dev: u32, op: u16, pt: Seq<u8>, nonce: Seq<u8>|
                    spec_request_well_formed(*catalog, kt, dev, op, pt, nonce) && msg@
                        == #[trigger] spec_msg_from(*catalog, kt, dev, op, pt, nonce) implies false by {
                }
            }
            return None;
        },
    };
    let ghost parts = spec_decode_envelope(msg@)->Ok_0;
    let ghost pt_view = operation_bytes@;
    let (opcode_response, operation_response) = operation_handler.handle_operation(
        catalog,
        device_id,
        opcode,
        operation_bytes.as_slice(),
    );
    let response = match cose_handler.encode_msg(opcode_response, operation_response.as_slice()) {
        Ok(b) => {
            proof {
                let n = choose|n: Seq<u8>|
                    n.len() == spec_nonce_len(spec_alg_of(parts.0.encryption_algorithm)) && b@
                        == spec_encoded_msg(
                        parts.0.encryption_algorithm,
                        cose_handler.key_bytes@,
                        parts.0.device_id,
                        opcode_response,
                        operation_response@,
                        n,
                    );
                assert({
                    &&& parts.2 == seal(
                        spec_alg_of(parts.0.encryption_algorithm),
                        cose_handler.key_bytes@,
                        parts.0.nonce,
                        spec_aad_bytes(parts.1),
                        pt_view,
                    )
                    &&& catalog.devices@ == spec_handle_devices(
                        *old(catalog),
                        parts.0.device_id,
                        parts.0.opcode,
                        pt_view,
                    )
                    &&& n.len() == spec_nonce_len(spec_alg_of(parts.0.encryption_algorithm))
                    &&& b@ == spec_encoded_msg(
                        parts.0.encryption_algorithm,
                        cose_handler.key_bytes@,
                        parts.0.device_id,
                        spec_handle_operation(
                            *old(catalog),
                            parts.0.device_id,
                            parts.0.opcode,
                            pt_view,
                        ).0,
                        spec_handle_operation(
                            *old(catalog),
                            parts.0.device_id,
                            parts.0.opcode,
                            pt_view,
                        ).1,
                        n,
                    )
                });
            }
            Some(b)
        },
        Err(_) => None,
    };
    proof {
        assert forall|kt: KeyType, dev: u32, op: u16, pt: Seq<u8>, nonce: Seq<u8>|
            spec_request_well_formed(*old(catalog), kt, dev, op, pt, nonce) && msg@
                == #[trigger] spec_msg_from(*old(catalog), kt, dev, op, pt, nonce) implies (
        catalog.devices@ == spec_handle_devices(*old(catalog), dev, op, pt) && (response matches Some(
            m,
        ) ==> exists|nonce2: Seq<u8>|
            nonce2.len() == spec_nonce_len(spec_alg_of(kt)) && m@ == spec_encoded_msg(
                kt,
                crate::catalog::spec_key_for_device(*old(catalog), dev, kt)->Ok_0,
                dev,
                spec_handle_operation(*old(catalog), dev, op, pt).0,
                spec_handle_operation(*old(catalog), dev, op, pt).1,
                nonce2,
            ))) by {
            crate::cose::lemma_request_decodes(*old(catalog), kt, dev, op, pt, nonce);
            assert(parts.0.device_id == dev && parts.0.opcode == op
                && parts.0.encryption_algorithm == kt);
            assert(pt_view == pt);
        }
    }
    cose_handler.wipe_key();
    response
}

} // verus!
