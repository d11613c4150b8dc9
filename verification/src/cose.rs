//! The authenticated envelope wrapping every datagram: a three-element
//! array of protected-header bytes, an empty unprotected map, and the
//! ciphertext.  The protected header is a five-entry map carrying the
//! algorithm tag, the device id, the opcode, the nonce, and the critical
//! -header list; it is bound verbatim into the associated data.

use crate::cbor::{
    enc_bytes, enc_head, head, is_break, parse_bytes, parse_container, parse_uint, read_bytes,
    read_container, read_uint, MAJOR_ARRAY, MAJOR_BYTES, MAJOR_MAP, MAJOR_TEXT, MAJOR_UINT,
};
use crate::crypto::{seal, spec_key_len, spec_nonce_len, spec_tag_len, CryptoAlgorithm};
use vstd::prelude::*;

verus! {

/// Why the key provider could not hand out a key.
#[derive(Clone, Copy, PartialEq, Eq, Structural, Debug)]
pub enum KeyProviderError {
    KeyMismatch,
    KeyNotFound,
    DbError,
}

/// Why an envelope could not be decoded or encoded.
#[derive(Clone, Copy, PartialEq, Eq, Structural, Debug)]
pub enum CoseCodecError {
    MissingHeaderField,
    UnknownHeaderKey,
    UnknownCriticalHeader,
    DecryptionError,
    EncryptionError,
    UnknownAlgorithm,
    InvalidMessage,
    RandomnessFailed,
}

/// The kind of key a request is encrypted under, as named on the wire.
#[derive(Clone, Copy, PartialEq, Eq, Structural, Debug)]
pub enum KeyType {
    AesGcm128,
    AsconAead128,
}

/// The algorithm a key type selects.
pub open spec fn spec_alg_of(kt: KeyType) -> CryptoAlgorithm {
    match kt {
        KeyType::AesGcm128 => CryptoAlgorithm::AesGcm128,
        KeyType::AsconAead128 => CryptoAlgorithm::AsconAead128,
    }
}

/// The algorithm a key type selects.
pub fn alg_of(kt: KeyType) -> (r: CryptoAlgorithm)
    ensures
        r == spec_alg_of(kt),
{
    match kt {
        KeyType::AesGcm128 => CryptoAlgorithm::AesGcm128,
        KeyType::AsconAead128 => CryptoAlgorithm::AsconAead128,
    }
}

/// The numeric algorithm tag carried in the protected header.
pub open spec fn spec_alg_tag(kt: KeyType) -> u16 {
    match kt {
        KeyType::AesGcm128 => 1,
        KeyType::AsconAead128 => 35,
    }
}

/// The numeric algorithm tag carried in the protected header.
pub fn alg_tag(kt: KeyType) -> (r: u16)
    ensures
        r == spec_alg_tag(kt),
{
    match kt {
        KeyType::AesGcm128 => 1,
        KeyType::AsconAead128 => 35,
    }
}

/// Protected-header key of the algorithm entry.
pub const HDR_ALGORITHM: u16 = 1;
/// Protected-header key of the critical-header list.
pub const HDR_CRITICAL: u16 = 2;
/// Protected-header key of the nonce.
pub const HDR_NONCE: u16 = 5;
/// Protected-header key of the device id.
pub const HDR_DEVICE_ID: u16 = 8608;
/// Protected-header key of the opcode.
pub const HDR_OPCODE: u16 = 8633;

/// The decoded protected header.
pub struct ProtectedHeader {
    pub device_id: u32,
    pub opcode: u16,
    pub encryption_algorithm: KeyType,
    pub nonce: Vec<u8>,
}

/// The mathematical content of a protected header.
pub struct ProtectedHeaderView {
    pub device_id: u32,
    pub opcode: u16,
    pub encryption_algorithm: KeyType,
    pub nonce: Seq<u8>,
}

impl View for ProtectedHeader {
    type V = ProtectedHeaderView;

    open spec fn view(&self) -> ProtectedHeaderView {
        ProtectedHeaderView {
            device_id: self.device_id,
            opcode: self.opcode,
            encryption_algorithm: self.encryption_algorithm,
            nonce: self.nonce@,
        }
    }
}

/// The ASCII bytes of the context string "Encrypt0".
pub open spec fn encrypt0_bytes() -> Seq<u8> {
    seq![0x45u8, 0x6Eu8, 0x63u8, 0x72u8, 0x79u8, 0x70u8, 0x74u8, 0x30u8]
}

/// The serialized protected header: a five-entry map in fixed order
/// (algorithm, device id, opcode, nonce, critical-header list).
pub open spec fn spec_protected_header_bytes(
    device_id: u32,
    opcode: u16,
    kt: KeyType,
    nonce: Seq<u8>,
) -> Seq<u8> {
    head(MAJOR_MAP, 5) + (head(MAJOR_UINT, HDR_ALGORITHM as u64) + (head(
        MAJOR_UINT,
        spec_alg_tag(kt) as u64,
    ) + (head(MAJOR_UINT, HDR_DEVICE_ID as u64) + (head(MAJOR_UINT, device_id as u64) + (head(
        MAJOR_UINT,
        HDR_OPCODE as u64,
    ) + (head(MAJOR_UINT, opcode as u64) + (head(MAJOR_UINT, HDR_NONCE as u64) + (head(
        MAJOR_BYTES,
        nonce.len() as u64,
    ) + (nonce + (head(MAJOR_UINT, HDR_CRITICAL as u64) + (head(MAJOR_ARRAY, 2) + (head(
        MAJOR_UINT,
        HDR_DEVICE_ID as u64,
    ) + head(MAJOR_UINT, HDR_OPCODE as u64)))))))))))))
}

/// The associated data bound to a ciphertext: the serialization of
/// `array(3, "Encrypt0", protected_header_bytes, bytes(0))`.
pub open spec fn spec_aad_bytes(ph: Seq<u8>) -> Seq<u8> {
    head(MAJOR_ARRAY, 3) + (head(MAJOR_TEXT, 8) + (encrypt0_bytes() + (head(
        MAJOR_BYTES,
        ph.len() as u64,
    ) + (ph + head(MAJOR_BYTES, 0)))))
}

/// The envelope: `array(3, bytes(protected header), map(0), bytes(ciphertext))`.
pub open spec fn spec_envelope_bytes(ph: Seq<u8>, ct: Seq<u8>) -> Seq<u8> {
    head(MAJOR_ARRAY, 3) + (head(MAJOR_BYTES, ph.len() as u64) + (ph + (head(MAJOR_MAP, 0) + (head(
        MAJOR_BYTES,
        ct.len() as u64,
    ) + ct))))
}

/// The whole message a sender with this key, nonce and plaintext emits.
pub open spec fn spec_encoded_msg(
    kt: KeyType,
    key: Seq<u8>,
    device_id: u32,
    opcode: u16,
    pt: Seq<u8>,
    nonce: Seq<u8>,
) -> Seq<u8> {
    let ph = spec_protected_header_bytes(device_id, opcode, kt, nonce);
    spec_envelope_bytes(ph, seal(spec_alg_of(kt), key, nonce, spec_aad_bytes(ph), pt))
}

/// Serialize a protected header in the fixed order.
#[verifier::spinoff_prover]
#[verifier::rlimit(100)]
pub fn encode_protected_header(protected_header: &ProtectedHeader) -> (r: Vec<u8>)
    requires
        protected_header.nonce@.len() <= 0xFFFF,
    ensures
        r@ == spec_protected_header_bytes(
            protected_header.device_id,
            protected_header.opcode,
            protected_header.encryption_algorithm,
            protected_header.nonce@,
        ),
{
    let ghost c0 = head(MAJOR_MAP, 5);
    let ghost c1 = head(MAJOR_UINT, HDR_ALGORITHM as u64);
    let ghost c2 = head(MAJOR_UINT, spec_alg_tag(protected_header.encryption_algorithm) as u64);
    let ghost c3 = head(MAJOR_UINT, HDR_DEVICE_ID as u64);
    let ghost c4 = head(MAJOR_UINT, protected_header.device_id as u64);
    let ghost c5 = head(MAJOR_UINT, HDR_OPCODE as u64);
    let ghost c6 = head(MAJOR_UINT, protected_header.opcode as u64);
    let ghost c7 = head(MAJOR_UINT, HDR_NONCE as u64);
    let ghost c8 = head(MAJOR_BYTES, protected_header.nonce@.len() as u64);
    let ghost c9 = protected_header.nonce@;
    let ghost c10 = head(MAJOR_UINT, HDR_CRITICAL as u64);
    let ghost c11 = head(MAJOR_ARRAY, 2);
    let ghost t13 = head(MAJOR_UINT, HDR_OPCODE as u64);
    let ghost t12 = c3 + t13;
    let ghost t11 = c11 + t12;
    let ghost t10 = c10 + t11;
    let ghost t9 = c9 + t10;
    let ghost t8 = c8 + t9;
    let ghost t7 = c7 + t8;
    let ghost t6 = c6 + t7;
    let ghost t5 = c5 + t6;
    let ghost t4 = c4 + t5;
    let ghost t3 = c3 + t4;
    let ghost t2 = c2 + t3;
    let ghost t1 = c1 + t2;
    let ghost t0 = c0 + t1;
    let mut buf: Vec<u8> = Vec::new();
    enc_head(&mut buf, MAJOR_MAP, 5);
    let ghost g0 = buf@;
    enc_head(&mut buf, MAJOR_UINT, HDR_ALGORITHM as u64);
    let ghost g1 = buf@;
    enc_head(&mut buf, MAJOR_UINT, alg_tag(protected_header.encryption_algorithm) as u64);
    let ghost g2 = buf@;
    enc_head(&mut buf, MAJOR_UINT, HDR_DEVICE_ID as u64);
    let ghost g3 = buf@;
    enc_head(&mut buf, MAJOR_UINT, protected_header.device_id as u64);
    let ghost g4 = buf@;
    enc_head(&mut buf, MAJOR_UINT, HDR_OPCODE as u64);
    let ghost g5 = buf@;
    enc_head(&mut buf, MAJOR_UINT, protected_header.opcode as u64);
    let ghost g6 = buf@;
    enc_head(&mut buf, MAJOR_UINT, HDR_NONCE as u64);
    let ghost g7 = buf@;
    enc_bytes(&mut buf, protected_header.nonce.as_slice());
    let ghost g9 = buf@;
    enc_head(&mut buf, MAJOR_UINT, HDR_CRITICAL as u64);
    let ghost g10 = buf@;
    enc_head(&mut buf, MAJOR_ARRAY, 2);
    let ghost g11 = buf@;
    enc_head(&mut buf, MAJOR_UINT, HDR_DEVICE_ID as u64);
    let ghost g12 = buf@;
    enc_head(&mut buf, MAJOR_UINT, HDR_OPCODE as u64);
    proof {
        assert(buf@ =~= g12 + t13);
        assert(buf@ =~= g11 + t12);
        assert(buf@ =~= g10 + t11);
        assert(buf@ =~= g9 + t10);
        assert(g9 =~= g7 + (c8 + c9));
        assert(buf@ =~= g7 + t8) by {
            assert(buf@ =~= (g7 + (c8 + c9)) + t10);
        }
        assert(buf@ =~= g6 + t7);
        assert(buf@ =~= g5 + t6);
        assert(buf@ =~= g4 + t5);
        assert(buf@ =~= g3 + t4);
        assert(buf@ =~= g2 + t3);
        assert(buf@ =~= g1 + t2);
        assert(buf@ =~= g0 + t1);
        assert(buf@ =~= t0);
    }
    buf
}

/// Serialize the associated data for the given protected-header bytes,
/// taken verbatim.
pub fn create_aad(protected_header_buf: &[u8]) -> (r: Vec<u8>)
    requires
        protected_header_buf@.len() <= 0xFF_FFFF,
    ensures
        r@ == spec_aad_bytes(protected_header_buf@),
{
    let mut buf: Vec<u8> = Vec::new();
    enc_head(&mut buf, MAJOR_ARRAY, 3);
    enc_head(&mut buf, MAJOR_TEXT, 8);
    buf.push(0x45);
    buf.push(0x6E);
    buf.push(0x63);
    buf.push(0x72);
    buf.push(0x79);
    buf.push(0x70);
    buf.push(0x74);
    buf.push(0x30);
    enc_bytes(&mut buf, protected_header_buf);
    enc_head(&mut buf, MAJOR_BYTES, 0);
    assert(buf@ =~= spec_aad_bytes(protected_header_buf@));
    buf
}

/// A protected header in the middle of decoding: each field until seen.
pub struct ProtectedHeaderDecode {
    pub device_id: Option<u32>,
    pub opcode: Option<u16>,
    pub encryption_algorithm: Option<KeyType>,
    pub nonce: Option<Vec<u8>>,
    pub critical_seen: bool,
}

/// The mathematical content of a partially decoded protected header.
pub struct ProtectedHeaderDecodeView {
    pub device_id: Option<u32>,
    pub opcode: Option<u16>,
    pub encryption_algorithm: Option<KeyType>,
    pub nonce: Option<Seq<u8>>,
    pub critical_seen: bool,
}

impl View for ProtectedHeaderDecode {
    type V = ProtectedHeaderDecodeView;

    open spec fn view(&self) -> ProtectedHeaderDecodeView {
        ProtectedHeaderDecodeView {
            device_id: self.device_id,
            opcode: self.opcode,
            encryption_algorithm: self.encryption_algorithm,
            nonce: match self.nonce {
                Some(v) => Some(v@),
                None => None,
            },
            critical_seen: self.critical_seen,
        }
    }
}

/// A partial header with no field seen yet.
pub open spec fn empty_header_decode() -> ProtectedHeaderDecodeView {
    ProtectedHeaderDecodeView {
        device_id: None,
        opcode: None,
        encryption_algorithm: None,
        nonce: None,
        critical_seen: false,
    }
}

/// A definite remaining count, decremented, or the indefinite marker.
pub open spec fn dec_remaining(remaining: Option<nat>) -> Option<nat> {
    match remaining {
        Some(n) => Some((n - 1) as nat),
        None => None,
    }
}

/// The count a definite container head gives, as the reader holds it.
pub open spec fn rem_view(remaining: Option<u64>) -> Option<nat> {
    match remaining {
        Some(n) => Some(n as nat),
        None => None,
    }
}

/// Walk the critical-header list from `pos`: every entry must be one of
/// the two understood header ids.  Returns the position after the list.
pub open spec fn crit_items(s: Seq<u8>, pos: int, remaining: Option<nat>) -> Result<
    int,
    CoseCodecError,
>
    decreases s.len() - pos,
{
    if remaining == Some(0nat) {
        Ok(pos)
    } else if remaining is None && is_break(s, pos) {
        Ok(pos + 1)
    } else {
        match parse_uint(s, pos, 25) {
            None => Err(CoseCodecError::InvalidMessage),
            Some((id, next)) => if id != HDR_DEVICE_ID as nat && id != HDR_OPCODE as nat {
                Err(CoseCodecError::UnknownCriticalHeader)
            } else if pos < next <= s.len() {
                crit_items(s, next, dec_remaining(remaining))
            } else {
                Err(CoseCodecError::InvalidMessage)
            },
        }
    }
}

/// Walk the protected-header map entries from `pos`, filling `f`; a later
/// entry for the same key replaces the earlier one.  Returns the filled
/// header and the position after the map.
pub open spec fn ph_entries(
    s: Seq<u8>,
    pos: int,
    remaining: Option<nat>,
    f: ProtectedHeaderDecodeView,
) -> Result<(ProtectedHeaderDecodeView, int), CoseCodecError>
    decreases s.len() - pos,
{
    if remaining == Some(0nat) {
        Ok((f, pos))
    } else if remaining is None && is_break(s, pos) {
        Ok((f, pos + 1))
    } else {
        match parse_uint(s, pos, 25) {
            None => Err(CoseCodecError::InvalidMessage),
            Some((key, p1)) => if key == HDR_DEVICE_ID as nat {
                match parse_uint(s, p1, 26) {
                    None => Err(CoseCodecError::InvalidMessage),
                    Some((v, p2)) => if pos < p2 <= s.len() {
                        ph_entries(
                            s,
                            p2,
                            dec_remaining(remaining),
                            ProtectedHeaderDecodeView { device_id: Some(v as u32), ..f },
                        )
                    } else {
                        Err(CoseCodecError::InvalidMessage)
                    },
                }
            } else if key == HDR_OPCODE as nat {
                match parse_uint(s, p1, 25) {
                    None => Err(CoseCodecError::InvalidMessage),
                    Some((v, p2)) => if pos < p2 <= s.len() {
                        ph_entries(
                            s,
                            p2,
                            dec_remaining(remaining),
                            ProtectedHeaderDecodeView { opcode: Some(v as u16), ..f },
                        )
                    } else {
                        Err(CoseCodecError::InvalidMessage)
                    },
                }
            } else if key == HDR_ALGORITHM as nat {
                match parse_uint(s, p1, 25) {
                    None => Err(CoseCodecError::InvalidMessage),
                    Some((v, p2)) => if v != 1 && v != 35 {
                        Err(CoseCodecError::UnknownAlgorithm)
                    } else if pos < p2 <= s.len() {
                        ph_entries(
                            s,
                            p2,
                            dec_remaining(remaining),
                            ProtectedHeaderDecodeView {
                                encryption_algorithm: Some(
                                    if v == 1 {
                                        KeyType::AesGcm128
                                    } else {
                                        KeyType::AsconAead128
                                    },
                                ),
                                ..f
                            },
                        )
                    } else {
                        Err(CoseCodecError::InvalidMessage)
                    },
                }
            } else if key == HDR_NONCE as nat {
                match parse_bytes(s, p1) {
                    None => Err(CoseCodecError::InvalidMessage),
                    Some((data, p2)) => if pos < p2 <= s.len() {
                        ph_entries(
                            s,
                            p2,
                            dec_remaining(remaining),
                            ProtectedHeaderDecodeView { nonce: Some(data), ..f },
                        )
                    } else {
                        Err(CoseCodecError::InvalidMessage)
                    },
                }
            } else if key == HDR_CRITICAL as nat {
                match parse_container(s, p1, MAJOR_ARRAY) {
                    None => Err(CoseCodecError::InvalidMessage),
                    Some((cnt, p2)) => match crit_items(s, p2, cnt) {
                        Err(e) => Err(e),
                        Ok(end) => if pos < end <= s.len() {
                            ph_entries(
                                s,
                                end,
                                dec_remaining(remaining),
                                ProtectedHeaderDecodeView { critical_seen: true, ..f },
                            )
                        } else {
                            Err(CoseCodecError::InvalidMessage)
                        },
                    },
                }
            } else {
                Err(CoseCodecError::UnknownHeaderKey)
            },
        }
    }
}

/// A filled header must hold all five fields, the critical-header list
/// among them; otherwise a field is missing.
pub open spec fn finish_header(f: ProtectedHeaderDecodeView) -> Result<
    ProtectedHeaderView,
    CoseCodecError,
> {
    match (f.device_id, f.opcode, f.encryption_algorithm, f.nonce) {
        (Some(d), Some(o), Some(a), Some(n)) => if f.critical_seen {
            Ok(ProtectedHeaderView { device_id: d, opcode: o, encryption_algorithm: a, nonce: n })
        } else {
            Err(CoseCodecError::MissingHeaderField)
        },
        _ => Err(CoseCodecError::MissingHeaderField),
    }
}

/// What decoding the protected-header bytes yields: the map may be
/// definite- or indefinite-length, its keys may come in any order, and
/// every required field must be present.
pub open spec fn spec_decode_protected_header(s: Seq<u8>) -> Result<
    ProtectedHeaderView,
    CoseCodecError,
> {
    match parse_container(s, 0, MAJOR_MAP) {
        None => Err(CoseCodecError::InvalidMessage),
        Some((cnt, p0)) => match ph_entries(s, p0, cnt, empty_header_decode()) {
            Err(e) => Err(e),
            Ok((f, _end)) => finish_header(f),
        },
    }
}

/// What decoding an envelope's frame yields before decryption: the
/// header, the protected-header bytes verbatim, and the ciphertext.
#[verifier::opaque]
pub open spec fn spec_decode_envelope(s: Seq<u8>) -> Result<
    (ProtectedHeaderView, Seq<u8>, Seq<u8>),
    CoseCodecError,
> {
    match parse_container(s, 0, MAJOR_ARRAY) {
        None => Err(CoseCodecError::InvalidMessage),
        Some((cnt, p0)) => if cnt != Some(3nat) {
            Err(CoseCodecError::InvalidMessage)
        } else {
            match parse_bytes(s, p0) {
                None => Err(CoseCodecError::InvalidMessage),
                Some((ph, p1)) => match spec_decode_protected_header(ph) {
                    Err(e) => Err(e),
                    Ok(h) => if h.nonce.len() != spec_nonce_len(
                        spec_alg_of(h.encryption_algorithm),
                    ) {
                        Err(CoseCodecError::InvalidMessage)
                    } else {
                        match parse_container(s, p1, MAJOR_MAP) {
                            Some((Some(n), p2)) => if n != 0 {
                                Err(CoseCodecError::InvalidMessage)
                            } else {
                                match parse_bytes(s, p2) {
                                None => Err(CoseCodecError::InvalidMessage),
                                    Some((ct, _p3)) => if ct.len() < spec_tag_len(
                                        spec_alg_of(h.encryption_algorithm),
                                    ) {
                                        Err(CoseCodecError::InvalidMessage)
                                    } else {
                                        Ok((h, ph, ct))
                                    },
                                }
                            },
                            _ => Err(CoseCodecError::InvalidMessage),
                        }
                    },
                },
            }
        },
    }
}

/// Decode the protected-header bytes, as `spec_decode_protected_header`
/// describes.
#[verifier::rlimit(60)]
pub fn decode_protected_header(buf: &[u8]) -> (r: Result<ProtectedHeader, CoseCodecError>)
    ensures
        match r {
            Ok(h) => spec_decode_protected_header(buf@) == Ok::<
                ProtectedHeaderView,
                CoseCodecError,
            >(h@),
            Err(e) => spec_decode_protected_header(buf@) matches Err(e2) && e == e2,
        },
{
    let ghost s = buf@;
    let mut cur = ProtectedHeaderDecode {
        device_id: None,
        opcode: None,
        encryption_algorithm: None,
        nonce: None,
        critical_seen: false,
    };
    let (cnt, p0) = match read_container(buf, 0, MAJOR_MAP) {
        Some(v) => v,
        None => {
            return Err(CoseCodecError::InvalidMessage);
        },
    };
    let mut pos: usize = p0;
    let mut remaining: Option<u64> = cnt;
    loop
        invariant_except_break
            ph_entries(s, pos as int, rem_view(remaining), cur@) == ph_entries(
                s,
                p0 as int,
                rem_view(cnt),
                empty_header_decode(),
            ),
        invariant
            s == buf@,
            pos <= s.len(),
            parse_container(s, 0, MAJOR_MAP) == Some((rem_view(cnt), p0 as int)),
        ensures
            ph_entries(s, p0 as int, rem_view(cnt), empty_header_decode()) == Ok::<
                (ProtectedHeaderDecodeView, int),
                CoseCodecError,
            >((cur@, pos as int)),
        decreases s.len() - pos,
    {
        let done = match remaining {
            Some(n) => n == 0,
            None => false,
        };
        if done {
            assert(ph_entries(s, pos as int, rem_view(remaining), cur@) == Ok::<
                (ProtectedHeaderDecodeView, int),
                CoseCodecError,
            >((cur@, pos as int)));
            break ;
        }
        if remaining.is_none() && pos < buf.len() && buf[pos] == crate::cbor::BREAK_BYTE {
            assert(ph_entries(s, pos as int, rem_view(remaining), cur@) == Ok::<
                (ProtectedHeaderDecodeView, int),
                CoseCodecError,
            >((cur@, pos as int + 1)));
            pos = pos + 1;
            break ;
        }
        let ghost pos0 = pos as int;
        let ghost rem0 = rem_view(remaining);
        let ghost cur0 = cur@;
        let (key, p1) = match read_uint(buf, pos, 25) {
            Some(v) => v,
            None => {
                assert(ph_entries(s, pos0, rem0, cur0) == Err::<
                    (ProtectedHeaderDecodeView, int),
                    CoseCodecError,
                >(CoseCodecError::InvalidMessage));
                return Err(CoseCodecError::InvalidMessage);
            },
        };
        if key == HDR_DEVICE_ID as u64 {
            let (v, p2) = match read_uint(buf, p1, 26) {
                Some(v) => v,
                None => {
                    assert(ph_entries(s, pos0, rem0, cur0) == Err::<
                        (ProtectedHeaderDecodeView, int),
                        CoseCodecError,
                    >(CoseCodecError::InvalidMessage));
                    return Err(CoseCodecError::InvalidMessage);
                },
            };
            cur.device_id = Some(v as u32);
            pos = p2;
        } else if key == HDR_OPCODE as u64 {
            let (v, p2) = match read_uint(buf, p1, 25) {
                Some(v) => v,
                None => {
                    assert(ph_entries(s, pos0, rem0, cur0) == Err::<
                        (ProtectedHeaderDecodeView, int),
                        CoseCodecError,
                    >(CoseCodecError::InvalidMessage));
                    return Err(CoseCodecError::InvalidMessage);
                },
            };
            cur.opcode = Some(v as u16);
            pos = p2;
        } else if key == HDR_ALGORITHM as u64 {
            let (v, p2) = match read_uint(buf, p1, 25) {
                Some(v) => v,
                None => {
                    assert(ph_entries(s, pos0, rem0, cur0) == Err::<
                        (ProtectedHeaderDecodeView, int),
                        CoseCodecError,
                    >(CoseCodecError::InvalidMessage));
                    return Err(CoseCodecError::InvalidMessage);
                },
            };
            if v != 1 && v != 35 {
                assert(ph_entries(s, pos0, rem0, cur0) == Err::<
                    (ProtectedHeaderDecodeView, int),
                    CoseCodecError,
                >(CoseCodecError::UnknownAlgorithm));
                return Err(CoseCodecError::UnknownAlgorithm);
            }
            cur.encryption_algorithm = Some(
                if v == 1 {
                    KeyType::AesGcm128
                } else {
                    KeyType::AsconAead128
                },
            );
            pos = p2;
        } else if key == HDR_NONCE as u64 {
            let (start, _len, p2) = match read_bytes(buf, p1) {
                Some(v) => v,
                None => {
                    assert(ph_entries(s, pos0, rem0, cur0) == Err::<
                        (ProtectedHeaderDecodeView, int),
                        CoseCodecError,
                    >(CoseCodecError::InvalidMessage));
                    return Err(CoseCodecError::InvalidMessage);
                },
            };
            cur.nonce = Some(
                vstd::slice::slice_to_vec(vstd::slice::slice_subrange(buf, start, p2)),
            );
            pos = p2;
        } else if key == HDR_CRITICAL as u64 {
            let (ccnt, c0) = match read_container(buf, p1, MAJOR_ARRAY) {
                Some(v) => v,
                None => {
                    assert(ph_entries(s, pos0, rem0, cur0) == Err::<
                        (ProtectedHeaderDecodeView, int),
                        CoseCodecError,
                    >(CoseCodecError::InvalidMessage));
                    return Err(CoseCodecError::InvalidMessage);
                },
            };
            let mut cpos: usize = c0;
            let mut crem: Option<u64> = ccnt;
            let mut cerr: Option<CoseCodecError> = None;
            loop
                invariant_except_break
                    crit_items(s, cpos as int, rem_view(crem)) == crit_items(
                        s,
                        c0 as int,
                        rem_view(ccnt),
                    ),
                    cerr is None,
                invariant
                    s == buf@,
                    pos < cpos <= s.len(),
                ensures
                    pos < cpos <= s.len(),
                    match cerr {
                        None => crit_items(s, c0 as int, rem_view(ccnt)) == Ok::<
                            int,
                            CoseCodecError,
                        >(cpos as int),
                        Some(e) => crit_items(s, c0 as int, rem_view(ccnt)) == Err::<
                            int,
                            CoseCodecError,
                        >(e),
                    },
                decreases s.len() - cpos,
            {
                let cdone = match crem {
                    Some(n) => n == 0,
                    None => false,
                };
                if cdone {
                    assert(crit_items(s, cpos as int, rem_view(crem)) == Ok::<
                        int,
                        CoseCodecError,
                    >(cpos as int));
                    break ;
                }
                if crem.is_none() && cpos < buf.len() && buf[cpos] == crate::cbor::BREAK_BYTE {
                    assert(crit_items(s, cpos as int, rem_view(crem)) == Ok::<
                        int,
                        CoseCodecError,
                    >(cpos as int + 1));
                    cpos = cpos + 1;
                    break ;
                }
                let (id, cnext) = match read_uint(buf, cpos, 25) {
                    Some(v) => v,
                    None => {
                        assert(crit_items(s, cpos as int, rem_view(crem)) == Err::<
                            int,
                            CoseCodecError,
                        >(CoseCodecError::InvalidMessage));
                        cerr = Some(CoseCodecError::InvalidMessage);
                        break ;
                    },
                };
                if id != HDR_DEVICE_ID as u64 && id != HDR_OPCODE as u64 {
                    assert(crit_items(s, cpos as int, rem_view(crem)) == Err::<
                        int,
                        CoseCodecError,
                    >(CoseCodecError::UnknownCriticalHeader));
                    cerr = Some(CoseCodecError::UnknownCriticalHeader);
                    break ;
                }
                cpos = cnext;
                crem = match crem {
                    Some(n) => Some(n - 1),
                    None => None,
                };
            }
            match cerr {
                Some(e) => {
                    assert(ph_entries(s, pos0, rem0, cur0) == Err::<
                        (ProtectedHeaderDecodeView, int),
                        CoseCodecError,
                    >(e));
                    return Err(e);
                },
                None => {},
            }
            cur.critical_seen = true;
            pos = cpos;
        } else {
            assert(ph_entries(s, pos0, rem0, cur0) == Err::<
                (ProtectedHeaderDecodeView, int),
                CoseCodecError,
            >(CoseCodecError::UnknownHeaderKey));
            return Err(CoseCodecError::UnknownHeaderKey);
        }
        remaining = match remaining {
            Some(n) => Some(n - 1),
            None => None,
        };
        assert(ph_entries(s, pos as int, rem_view(remaining), cur@) == ph_entries(
            s,
            pos0,
            rem0,
            cur0,
        ));
    }
    match (cur.device_id, cur.opcode, cur.encryption_algorithm, cur.nonce) {
        (Some(d), Some(o), Some(a), Some(n)) => if cur.critical_seen {
            Ok(ProtectedHeader { device_id: d, opcode: o, encryption_algorithm: a, nonce: n })
        } else {
            Err(CoseCodecError::MissingHeaderField)
        },
        _ => Err(CoseCodecError::MissingHeaderField),
    }
}

/// The pieces of a structurally valid envelope: the decoded header, and
/// where the protected-header bytes and the ciphertext stand in the input.
pub struct EnvelopeParts {
    pub header: ProtectedHeader,
    pub ph_start: usize,
    pub ph_end: usize,
    pub ct_start: usize,
    pub ct_end: usize,
}

/// Parse an envelope's frame (no decryption), as `spec_decode_envelope`
/// describes; the protected-header bytes and ciphertext are returned as
/// positions into `msg`.
pub fn parse_envelope(msg: &[u8]) -> (r: Result<EnvelopeParts, CoseCodecError>)
    ensures
        match r {
            Ok(p) => {
                &&& p.ph_start <= p.ph_end <= msg@.len()
                &&& p.ct_start <= p.ct_end <= msg@.len()
                &&& spec_decode_envelope(msg@) == Ok::<
                    (ProtectedHeaderView, Seq<u8>, Seq<u8>),
                    CoseCodecError,
                >(
                    (
                        p.header@,
                        msg@.subrange(p.ph_start as int, p.ph_end as int),
                        msg@.subrange(p.ct_start as int, p.ct_end as int),
                    ),
                )
                &&& p.header.nonce@.len() == spec_nonce_len(
                    spec_alg_of(p.header.encryption_algorithm),
                )
                &&& p.ct_end - p.ct_start >= spec_tag_len(
                    spec_alg_of(p.header.encryption_algorithm),
                )
            },
            Err(e) => spec_decode_envelope(msg@) matches Err(e2) && e == e2,
        },
{
    proof {
        reveal(spec_decode_envelope);
    }
    let (cnt, p0) = match read_container(msg, 0, MAJOR_ARRAY) {
        Some(v) => v,
        None => {
            return Err(CoseCodecError::InvalidMessage);
        },
    };
    let three = match cnt {
        Some(n) => n == 3,
        None => false,
    };
    if !three {
        return Err(CoseCodecError::InvalidMessage);
    }
    let (ph_start, _ph_len, p1) = match read_bytes(msg, p0) {
        Some(v) => v,
        None => {
            return Err(CoseCodecError::InvalidMessage);
        },
    };
    let header = match decode_protected_header(
        vstd::slice::slice_subrange(msg, ph_start, p1),
    ) {
        Ok(h) => h,
        Err(e) => {
            return Err(e);
        },
    };
    let alg = alg_of(header.encryption_algorithm);
    if header.nonce.len() != crate::crypto::nonce_len_of(alg) {
        return Err(CoseCodecError::InvalidMessage);
    }
    let (mcnt, p2) = match read_container(msg, p1, MAJOR_MAP) {
        Some(v) => v,
        None => {
            return Err(CoseCodecError::InvalidMessage);
        },
    };
    let zero = match mcnt {
        Some(n) => n == 0,
        None => false,
    };
    if !zero {
        return Err(CoseCodecError::InvalidMessage);
    }
    let (ct_start, _ct_len, p3) = match read_bytes(msg, p2) {
        Some(v) => v,
        None => {
            return Err(CoseCodecError::InvalidMessage);
        },
    };
    if p3 - ct_start < crate::crypto::tag_len_of(alg) {
        return Err(CoseCodecError::InvalidMessage);
    }
    Ok(EnvelopeParts { header, ph_start, ph_end: p1, ct_start, ct_end: p3 })
}

/// Build the whole message for a given nonce: deterministic, so a captured
/// nonce reproduces the bytes exactly.
pub fn encode_msg_with_nonce(
    key: &[u8],
    key_type: KeyType,
    device_id: u32,
    operation_id: u16,
    operation: &[u8],
    nonce: &[u8],
) -> (r: Result<Vec<u8>, CoseCodecError>)
    requires
        key@.len() == spec_key_len(spec_alg_of(key_type)),
        nonce@.len() == spec_nonce_len(spec_alg_of(key_type)),
        operation@.len() <= 0xFFFF_FF00,
    ensures
        r matches Ok(m) ==> m@ == spec_encoded_msg(
            key_type,
            key@,
            device_id,
            operation_id,
            operation@,
            nonce@,
        ),
        r is Ok,
{
    let mut nonce_copy: Vec<u8> = Vec::new();
    nonce_copy.extend_from_slice(nonce);
    assert(nonce_copy@ == nonce@);
    let ph = ProtectedHeader {
        device_id,
        opcode: operation_id,
        encryption_algorithm: key_type,
        nonce: nonce_copy,
    };
    let ph_buf = encode_protected_header(&ph);
    let aad = create_aad(ph_buf.as_slice());
    let alg = alg_of(key_type);
    proof {
        assert(head(MAJOR_MAP, 5).len() == 1);
        assert(head(MAJOR_UINT, HDR_ALGORITHM as u64).len() == 1);
        assert(head(MAJOR_UINT, spec_alg_tag(key_type) as u64).len() <= 2);
        assert(head(MAJOR_UINT, HDR_DEVICE_ID as u64).len() == 3);
        assert(head(MAJOR_UINT, device_id as u64).len() <= 5);
        assert(head(MAJOR_UINT, HDR_OPCODE as u64).len() == 3);
        assert(head(MAJOR_UINT, operation_id as u64).len() <= 3);
        assert(head(MAJOR_UINT, HDR_NONCE as u64).len() == 1);
        assert(head(MAJOR_BYTES, nonce@.len() as u64).len() <= 2);
        assert(head(MAJOR_UINT, HDR_CRITICAL as u64).len() == 1);
        assert(head(MAJOR_ARRAY, 2).len() == 1);
        assert(ph_buf@.len() <= 42 + nonce@.len());
    }
    let ct = match crate::crypto::aead_encrypt(alg, key, nonce, aad.as_slice(), operation) {
        Ok(c) => c,
        Err(_) => {
            return Err(CoseCodecError::EncryptionError);
        },
    };
    proof {
        assert(head(MAJOR_ARRAY, 3).len() == 1);
        assert(head(MAJOR_BYTES, ph_buf@.len() as u64).len() <= 2);
        assert(head(MAJOR_MAP, 0).len() == 1);
    }
    let mut buf: Vec<u8> = Vec::new();
    enc_head(&mut buf, MAJOR_ARRAY, 3);
    enc_bytes(&mut buf, ph_buf.as_slice());
    enc_head(&mut buf, MAJOR_MAP, 0);
    enc_bytes(&mut buf, ct.as_slice());
    assert(buf@ =~= spec_encoded_msg(
        key_type,
        key@,
        device_id,
        operation_id,
        operation@,
        nonce@,
    ));
    Ok(buf)
}

/// Build the whole message under a fresh random nonce.  Fails only when
/// the random source does.
pub fn encode_msg(
    key: &[u8],
    key_type: KeyType,
    device_id: u32,
    operation_id: u16,
    operation: &[u8],
) -> (r: Result<Vec<u8>, CoseCodecError>)
    requires
        key@.len() == spec_key_len(spec_alg_of(key_type)),
        operation@.len() <= 0xFFFF_FF00,
    ensures
        r matches Ok(m) ==> exists|nonce: Seq<u8>|
            nonce.len() == spec_nonce_len(spec_alg_of(key_type)) && m@ == spec_encoded_msg(
                key_type,
                key@,
                device_id,
                operation_id,
                operation@,
                nonce,
            ),
        r matches Err(e) ==> e == CoseCodecError::RandomnessFailed,
{
    let alg = alg_of(key_type);
    let nlen = crate::crypto::nonce_len_of(alg);
    let mut nonce: Vec<u8> = Vec::new();
    nonce.resize(nlen, 0u8);
    if !crate::crypto::fill_random(&mut nonce) {
        return Err(CoseCodecError::RandomnessFailed);
    }
    let ghost n = nonce@;
    match encode_msg_with_nonce(key, key_type, device_id, operation_id, operation, nonce.as_slice()) {
        Ok(m) => {
            assert(m@ == spec_encoded_msg(key_type, key@, device_id, operation_id, operation@, n));
            Ok(m)
        },
        Err(e) => Err(e),
    }
}

/// Peel the first chunk off a suffix of `s`: where the suffix from `pos`
/// is `chunk + rest`, the chunk stands verbatim at `pos` and the rest
/// makes up the suffix after it.
proof fn lemma_peel(s: Seq<u8>, pos: int, chunk: Seq<u8>, rest: Seq<u8>)
    requires
        0 <= pos <= s.len(),
        s.subrange(pos, s.len() as int) == chunk + rest,
    ensures
        pos + chunk.len() + rest.len() == s.len(),
        s.subrange(pos, pos + chunk.len()) == chunk,
        s.subrange(pos + chunk.len(), s.len() as int) == rest,
{
    assert(s.subrange(pos, s.len() as int).len() == (chunk + rest).len());
    assert(s.subrange(pos, s.len() as int).len() == s.len() - pos);
    assert((chunk + rest).len() == chunk.len() + rest.len());
    assert(pos + chunk.len() + rest.len() == s.len());
    assert forall|k: int| 0 <= k < chunk.len() implies s.subrange(pos, pos + chunk.len())[k]
        == chunk[k] by {
        assert(s.subrange(pos, s.len() as int)[k] == (chunk + rest)[k]);
        assert(s.subrange(pos, s.len() as int)[k] == s[pos + k]);
        assert(s.subrange(pos, pos + chunk.len())[k] == s[pos + k]);
    }
    assert(s.subrange(pos, pos + chunk.len()) =~= chunk);
    assert forall|k: int| 0 <= k < rest.len() implies s.subrange(
        pos + chunk.len(),
        s.len() as int,
    )[k] == rest[k] by {
        assert(s.subrange(pos, s.len() as int)[chunk.len() + k] == (chunk + rest)[chunk.len() + k]);
        assert(s.subrange(pos, s.len() as int)[chunk.len() + k] == s[pos + chunk.len() + k]);
        assert(s.subrange(pos + chunk.len(), s.len() as int)[k] == s[pos + chunk.len() + k]);
    }
    assert(s.subrange(pos + chunk.len(), s.len() as int) =~= rest);
}

/// The subrange facts behind `lemma_decode_of_encoded_header`, front
/// half: the first eight pieces stand at their cumulative offsets, and
/// the rest of the serialization follows.
#[verifier::spinoff_prover]
#[verifier::rlimit(100)]
proof fn lemma_ph_chunks_front(device_id: u32, opcode: u16, kt: KeyType, nonce: Seq<u8>)
    ensures
        ({
            let s = spec_protected_header_bytes(device_id, opcode, kt, nonce);
            let c0 = head(MAJOR_MAP, 5);
            let c1 = head(MAJOR_UINT, HDR_ALGORITHM as u64);
            let c2 = head(MAJOR_UINT, spec_alg_tag(kt) as u64);
            let c3 = head(MAJOR_UINT, HDR_DEVICE_ID as u64);
            let c4 = head(MAJOR_UINT, device_id as u64);
            let c5 = head(MAJOR_UINT, HDR_OPCODE as u64);
            let c6 = head(MAJOR_UINT, opcode as u64);
            let c7 = head(MAJOR_UINT, HDR_NONCE as u64);
            let c8 = head(MAJOR_BYTES, nonce.len() as u64);
            let c10 = head(MAJOR_UINT, HDR_CRITICAL as u64);
            let c11 = head(MAJOR_ARRAY, 2);
            let p0 = c0.len() as int;
            let p1 = p0 + c1.len();
            let p2 = p1 + c2.len();
            let p3 = p2 + c3.len();
            let p4 = p3 + c4.len();
            let p5 = p4 + c5.len();
            let p6 = p5 + c6.len();
            let p7 = p6 + c7.len();
            let p9 = p7 + c8.len() + nonce.len();
            &&& s.subrange(0, p0) == c0
            &&& s.subrange(p0, p1) == c1
            &&& s.subrange(p1, p2) == c2
            &&& s.subrange(p2, p3) == c3
            &&& s.subrange(p3, p4) == c4
            &&& s.subrange(p4, p5) == c5
            &&& s.subrange(p5, p6) == c6
            &&& s.subrange(p6, p7) == c7
            &&& s.subrange(p7, p9) == c8 + nonce
            &&& s.subrange(p9, s.len() as int) == c10 + (c11 + (c3 + c5))
            &&& s.len() == p9 + c10.len() + c11.len() + c3.len() + c5.len()
        }),
{
    let s = spec_protected_header_bytes(device_id, opcode, kt, nonce);
    let c0 = head(MAJOR_MAP, 5);
    let c1 = head(MAJOR_UINT, HDR_ALGORITHM as u64);
    let c2 = head(MAJOR_UINT, spec_alg_tag(kt) as u64);
    let c3 = head(MAJOR_UINT, HDR_DEVICE_ID as u64);
    let c4 = head(MAJOR_UINT, device_id as u64);
    let c5 = head(MAJOR_UINT, HDR_OPCODE as u64);
    let c6 = head(MAJOR_UINT, opcode as u64);
    let c7 = head(MAJOR_UINT, HDR_NONCE as u64);
    let c8 = head(MAJOR_BYTES, nonce.len() as u64);
    let c10 = head(MAJOR_UINT, HDR_CRITICAL as u64);
    let c11 = head(MAJOR_ARRAY, 2);
    let r10 = c10 + (c11 + (c3 + c5));
    let r9 = nonce + r10;
    let r8 = c8 + r9;
    let r7 = c7 + r8;
    let r6 = c6 + r7;
    let r5 = c5 + r6;
    let r4 = c4 + r5;
    let r3 = c3 + r4;
    let r2 = c2 + r3;
    let r1 = c1 + r2;
    assert(s.subrange(0, s.len() as int) =~= s);
    assert(s == c0 + r1);
    lemma_peel(s, 0, c0, r1);
    let p0 = c0.len() as int;
    lemma_peel(s, p0, c1, r2);
    let p1 = p0 + c1.len();
    lemma_peel(s, p1, c2, r3);
    let p2 = p1 + c2.len();
    lemma_peel(s, p2, c3, r4);
    let p3 = p2 + c3.len();
    lemma_peel(s, p3, c4, r5);
    let p4 = p3 + c4.len();
    lemma_peel(s, p4, c5, r6);
    let p5 = p4 + c5.len();
    lemma_peel(s, p5, c6, r7);
    let p6 = p5 + c6.len();
    lemma_peel(s, p6, c7, r8);
    let p7 = p6 + c7.len();
    lemma_peel(s, p7, c8, r9);
    let p8 = p7 + c8.len();
    lemma_peel(s, p8, nonce, r10);
    let p9 = p8 + nonce.len();
    assert forall|k: int| 0 <= k < c8.len() + nonce.len() implies s.subrange(p7, p9)[k] == (c8
        + nonce)[k] by {
        if k < c8.len() {
            assert(s.subrange(p7, p8)[k] == s[p7 + k]);
        } else {
            assert(s.subrange(p8, p9)[k - c8.len()] == s[p8 + (k - c8.len())]);
        }
        assert(s.subrange(p7, p9)[k] == s[p7 + k]);
    }
    assert(s.subrange(p7, p9) =~= c8 + nonce);
}

/// The subrange facts behind `lemma_decode_of_encoded_header`, back half:
/// the critical-header list's pieces stand at their cumulative offsets.
#[verifier::spinoff_prover]
#[verifier::rlimit(100)]
proof fn lemma_ph_chunks_back(s: Seq<u8>, p9: int)
    requires
        0 <= p9 <= s.len(),
        s.subrange(p9, s.len() as int) == head(MAJOR_UINT, HDR_CRITICAL as u64) + (head(
            MAJOR_ARRAY,
            2,
        ) + (head(MAJOR_UINT, HDR_DEVICE_ID as u64) + head(MAJOR_UINT, HDR_OPCODE as u64))),
    ensures
        ({
            let c10 = head(MAJOR_UINT, HDR_CRITICAL as u64);
            let c11 = head(MAJOR_ARRAY, 2);
            let c12 = head(MAJOR_UINT, HDR_DEVICE_ID as u64);
            let c13 = head(MAJOR_UINT, HDR_OPCODE as u64);
            let p10 = p9 + c10.len();
            let p11 = p10 + c11.len();
            let p12 = p11 + c12.len();
            let p13 = p12 + c13.len();
            &&& s.len() == p13
            &&& s.subrange(p9, p10) == c10
            &&& s.subrange(p10, p11) == c11
            &&& s.subrange(p11, p12) == c12
            &&& s.subrange(p12, p13) == c13
        }),
{
    let c10 = head(MAJOR_UINT, HDR_CRITICAL as u64);
    let c11 = head(MAJOR_ARRAY, 2);
    let c12 = head(MAJOR_UINT, HDR_DEVICE_ID as u64);
    let c13 = head(MAJOR_UINT, HDR_OPCODE as u64);
    lemma_peel(s, p9, c10, c11 + (c12 + c13));
    let p10 = p9 + c10.len();
    lemma_peel(s, p10, c11, c12 + c13);
    let p11 = p10 + c11.len();
    lemma_peel(s, p11, c12, c13);
    let p12 = p11 + c12.len();
    lemma_peel(s, p12, c13, Seq::empty());
}

/// Walking the five serialized map entries, given where each parses.
#[verifier::spinoff_prover]
#[verifier::rlimit(100)]
proof fn lemma_ph_walk(
    s: Seq<u8>,
    device_id: u32,
    opcode: u16,
    kt: KeyType,
    nonce: Seq<u8>,
    p0: int,
    p1: int,
    p2: int,
    p3: int,
    p4: int,
    p5: int,
    p6: int,
    p7: int,
    p9: int,
    p10: int,
    p11: int,
    p12: int,
    p13: int,
)
    requires
        0 <= p0 < p2 < p4 < p6 < p9 < p13 <= s.len(),
        p10 < p11 < p12 <= p13,
        parse_uint(s, p0, 25) == Some((HDR_ALGORITHM as nat, p1)),
        parse_uint(s, p1, 25) == Some((spec_alg_tag(kt) as nat, p2)),
        parse_uint(s, p2, 25) == Some((HDR_DEVICE_ID as nat, p3)),
        parse_uint(s, p3, 26) == Some((device_id as nat, p4)),
        parse_uint(s, p4, 25) == Some((HDR_OPCODE as nat, p5)),
        parse_uint(s, p5, 25) == Some((opcode as nat, p6)),
        parse_uint(s, p6, 25) == Some((HDR_NONCE as nat, p7)),
        parse_bytes(s, p7) == Some((nonce, p9)),
        parse_uint(s, p9, 25) == Some((HDR_CRITICAL as nat, p10)),
        parse_container(s, p10, MAJOR_ARRAY) == Some((Some(2nat), p11)),
        parse_uint(s, p11, 25) == Some((HDR_DEVICE_ID as nat, p12)),
        parse_uint(s, p12, 25) == Some((HDR_OPCODE as nat, p13)),
    ensures
        ph_entries(s, p0, Some(5nat), empty_header_decode()) == Ok::<
            (ProtectedHeaderDecodeView, int),
            CoseCodecError,
        >(
            (
                (ProtectedHeaderDecodeView {
                    device_id: Some(device_id),
                    opcode: Some(opcode),
                    encryption_algorithm: Some(kt),
                    nonce: Some(nonce),
                    critical_seen: true,
                }),
                p13,
            ),
        ),
{
    assert(crit_items(s, p11, Some(2nat)) == crit_items(s, p12, Some(1nat)));
    assert(crit_items(s, p12, Some(1nat)) == crit_items(s, p13, Some(0nat)));
    assert(crit_items(s, p13, Some(0nat)) == Ok::<int, CoseCodecError>(p13));
    let f0 = empty_header_decode();
    let f1 = ProtectedHeaderDecodeView { encryption_algorithm: Some(kt), ..f0 };
    let f2 = ProtectedHeaderDecodeView { device_id: Some(device_id), ..f1 };
    let f3 = ProtectedHeaderDecodeView { opcode: Some(opcode), ..f2 };
    let f4 = ProtectedHeaderDecodeView { nonce: Some(nonce), ..f3 };
    let f5 = ProtectedHeaderDecodeView { critical_seen: true, ..f4 };
    assert(spec_alg_tag(kt) == 1 || spec_alg_tag(kt) == 35);
    assert(ph_entries(s, p0, Some(5nat), f0) == ph_entries(s, p2, Some(4nat), f1));
    assert(ph_entries(s, p2, Some(4nat), f1) == ph_entries(s, p4, Some(3nat), f2));
    assert(ph_entries(s, p4, Some(3nat), f2) == ph_entries(s, p6, Some(2nat), f3));
    assert(ph_entries(s, p6, Some(2nat), f3) == ph_entries(s, p9, Some(1nat), f4));
    assert(ph_entries(s, p9, Some(1nat), f4) == ph_entries(s, p13, Some(0nat), f5));
    assert(ph_entries(s, p13, Some(0nat), f5) == Ok::<
        (ProtectedHeaderDecodeView, int),
        CoseCodecError,
    >((f5, p13)));
}

/// Decoding what the protected-header serializer produced yields exactly
/// the encoded fields.
#[verifier::spinoff_prover]
#[verifier::rlimit(100)]
pub proof fn lemma_decode_of_encoded_header(device_id: u32, opcode: u16, kt: KeyType, nonce: Seq<u8>)
    requires
        nonce.len() <= 0xFFFF,
    ensures
        spec_decode_protected_header(spec_protected_header_bytes(device_id, opcode, kt, nonce))
            == Ok::<ProtectedHeaderView, CoseCodecError>(
            (ProtectedHeaderView { device_id, opcode, encryption_algorithm: kt, nonce }),
        ),
{
    let s = spec_protected_header_bytes(device_id, opcode, kt, nonce);
    let c0 = head(MAJOR_MAP, 5);
    let c1 = head(MAJOR_UINT, HDR_ALGORITHM as u64);
    let c2 = head(MAJOR_UINT, spec_alg_tag(kt) as u64);
    let c3 = head(MAJOR_UINT, HDR_DEVICE_ID as u64);
    let c4 = head(MAJOR_UINT, device_id as u64);
    let c5 = head(MAJOR_UINT, HDR_OPCODE as u64);
    let c6 = head(MAJOR_UINT, opcode as u64);
    let c7 = head(MAJOR_UINT, HDR_NONCE as u64);
    let c8 = head(MAJOR_BYTES, nonce.len() as u64);
    let c10 = head(MAJOR_UINT, HDR_CRITICAL as u64);
    let c11 = head(MAJOR_ARRAY, 2);
    let p0 = c0.len() as int;
    let p1 = p0 + c1.len();
    let p2 = p1 + c2.len();
    let p3 = p2 + c3.len();
    let p4 = p3 + c4.len();
    let p5 = p4 + c5.len();
    let p6 = p5 + c6.len();
    let p7 = p6 + c7.len();
    let p8 = p7 + c8.len();
    let p9 = p8 + nonce.len();
    let p10 = p9 + c10.len();
    let p11 = p10 + c11.len();
    let p12 = p11 + c3.len();
    let p13 = p12 + c5.len();
    lemma_ph_chunks_front(device_id, opcode, kt, nonce);
    lemma_ph_chunks_back(s, p9);
    crate::cbor::lemma_parse_container_of_encoded(s, 0, MAJOR_MAP, 5);
    crate::cbor::lemma_parse_uint_of_encoded(s, p0, HDR_ALGORITHM as u64, 25);
    crate::cbor::lemma_parse_uint_of_encoded(s, p1, spec_alg_tag(kt) as u64, 25);
    crate::cbor::lemma_parse_uint_of_encoded(s, p2, HDR_DEVICE_ID as u64, 25);
    crate::cbor::lemma_parse_uint_of_encoded(s, p3, device_id as u64, 26);
    crate::cbor::lemma_parse_uint_of_encoded(s, p4, HDR_OPCODE as u64, 25);
    crate::cbor::lemma_parse_uint_of_encoded(s, p5, opcode as u64, 25);
    crate::cbor::lemma_parse_uint_of_encoded(s, p6, HDR_NONCE as u64, 25);
    crate::cbor::lemma_parse_bytes_of_encoded(s, p7, nonce);
    crate::cbor::lemma_parse_uint_of_encoded(s, p9, HDR_CRITICAL as u64, 25);
    crate::cbor::lemma_parse_container_of_encoded(s, p10, MAJOR_ARRAY, 2);
    crate::cbor::lemma_parse_uint_of_encoded(s, p11, HDR_DEVICE_ID as u64, 25);
    crate::cbor::lemma_parse_uint_of_encoded(s, p12, HDR_OPCODE as u64, 25);
    lemma_ph_walk(s, device_id, opcode, kt, nonce, p0, p1, p2, p3, p4, p5, p6, p7, p9, p10,
        p11, p12, p13);
    let f5 = ProtectedHeaderDecodeView {
        device_id: Some(device_id),
        opcode: Some(opcode),
        encryption_algorithm: Some(kt),
        nonce: Some(nonce),
        critical_seen: true,
    };
    assert(finish_header(f5) == Ok::<ProtectedHeaderView, CoseCodecError>(
        (ProtectedHeaderView { device_id, opcode, encryption_algorithm: kt, nonce }),
    ));
}

/// Composing the envelope decode from where each frame piece parses.
#[verifier::spinoff_prover]
#[verifier::rlimit(100)]
proof fn lemma_env_walk(
    s: Seq<u8>,
    h: ProtectedHeaderView,
    ph: Seq<u8>,
    ct: Seq<u8>,
    p0: int,
    p2: int,
    p3: int,
    p5: int,
)
    requires
        parse_container(s, 0, MAJOR_ARRAY) == Some((Some(3nat), p0)),
        parse_bytes(s, p0) == Some((ph, p2)),
        spec_decode_protected_header(ph) == Ok::<ProtectedHeaderView, CoseCodecError>(h),
        h.nonce.len() == spec_nonce_len(spec_alg_of(h.encryption_algorithm)),
        parse_container(s, p2, MAJOR_MAP) == Some((Some(0nat), p3)),
        parse_bytes(s, p3) == Some((ct, p5)),
        ct.len() >= 16,
    ensures
        spec_decode_envelope(s) == Ok::<(ProtectedHeaderView, Seq<u8>, Seq<u8>), CoseCodecError>(
            (h, ph, ct),
        ),
{
    reveal(spec_decode_envelope);
}

/// Decoding the frame the envelope serializer produced around any
/// protected-header bytes that themselves decode.
#[verifier::spinoff_prover]
#[verifier::rlimit(100)]
pub proof fn lemma_decode_of_envelope_frame(ph: Seq<u8>, ct: Seq<u8>, h: ProtectedHeaderView)
    requires
        spec_decode_protected_header(ph) == Ok::<ProtectedHeaderView, CoseCodecError>(h),
        h.nonce.len() == spec_nonce_len(spec_alg_of(h.encryption_algorithm)),
        ct.len() >= 16,
        ct.len() <= 0xFFFF_FFFF,
        ph.len() <= 0xFFFF_FFFF,
    ensures
        spec_decode_envelope(spec_envelope_bytes(ph, ct)) == Ok::<
            (ProtectedHeaderView, Seq<u8>, Seq<u8>),
            CoseCodecError,
        >((h, ph, ct)),
{
    let s = spec_envelope_bytes(ph, ct);
    let c0 = head(MAJOR_ARRAY, 3);
    let c1 = head(MAJOR_BYTES, ph.len() as u64);
    let c3 = head(MAJOR_MAP, 0);
    let c4 = head(MAJOR_BYTES, ct.len() as u64);
    let p0 = c0.len() as int;
    let p1 = p0 + c1.len();
    let p2 = p1 + ph.len();
    let p3 = p2 + c3.len();
    let p4 = p3 + c4.len();
    let p5 = p4 + ct.len();
    let r4 = c4 + ct;
    let r3 = c3 + r4;
    let r2 = ph + r3;
    let r1 = c1 + r2;
    assert(s.subrange(0, s.len() as int) =~= s);
    assert(s == c0 + r1);
    lemma_peel(s, 0, c0, r1);
    lemma_peel(s, p0, c1, r2);
    lemma_peel(s, p1, ph, r3);
    lemma_peel(s, p2, c3, r4);
    lemma_peel(s, p3, c4, ct);
    lemma_peel(s, p4, ct, Seq::empty());
    assert forall|k: int| 0 <= k < c1.len() + ph.len() implies s.subrange(p0, p2)[k] == (c1
        + ph)[k] by {
        if k < c1.len() {
            assert(s.subrange(p0, p1)[k] == s[p0 + k]);
        } else {
            assert(s.subrange(p1, p2)[k - c1.len()] == s[p1 + (k - c1.len())]);
        }
        assert(s.subrange(p0, p2)[k] == s[p0 + k]);
    }
    assert(s.subrange(p0, p2) =~= c1 + ph);
    assert forall|k: int| 0 <= k < c4.len() + ct.len() implies s.subrange(p3, p5)[k] == (c4
        + ct)[k] by {
        if k < c4.len() {
            assert(s.subrange(p3, p4)[k] == s[p3 + k]);
        } else {
            assert(s.subrange(p4, p5)[k - c4.len()] == s[p4 + (k - c4.len())]);
        }
        assert(s.subrange(p3, p5)[k] == s[p3 + k]);
    }
    assert(s.subrange(p3, p5) =~= c4 + ct);
    crate::cbor::lemma_parse_container_of_encoded(s, 0, MAJOR_ARRAY, 3);
    crate::cbor::lemma_parse_bytes_of_encoded(s, p0, ph);
    crate::cbor::lemma_parse_container_of_encoded(s, p2, MAJOR_MAP, 0);
    crate::cbor::lemma_parse_bytes_of_encoded(s, p3, ct);
    lemma_env_walk(s, h, ph, ct, p0, p2, p3, p5);
}

/// The serialized protected header is short: under 100 bytes.
#[verifier::spinoff_prover]
#[verifier::rlimit(100)]
pub proof fn lemma_ph_bytes_len(device_id: u32, opcode: u16, kt: KeyType, nonce: Seq<u8>)
    ensures
        spec_protected_header_bytes(device_id, opcode, kt, nonce).len() <= 42 + nonce.len(),
{
    assert(head(MAJOR_MAP, 5).len() == 1);
    assert(head(MAJOR_UINT, HDR_ALGORITHM as u64).len() == 1);
    assert(head(MAJOR_UINT, spec_alg_tag(kt) as u64).len() <= 2);
    assert(head(MAJOR_UINT, HDR_DEVICE_ID as u64).len() == 3);
    assert(head(MAJOR_UINT, device_id as u64).len() <= 5);
    assert(head(MAJOR_UINT, HDR_OPCODE as u64).len() == 3);
    assert(head(MAJOR_UINT, opcode as u64).len() <= 3);
    assert(head(MAJOR_UINT, HDR_NONCE as u64).len() == 1);
    assert(head(MAJOR_BYTES, nonce.len() as u64).len() <= 9);
    assert(head(MAJOR_UINT, HDR_CRITICAL as u64).len() == 1);
    assert(head(MAJOR_ARRAY, 2).len() == 1);
}

/// Decoding the frame the envelope serializer produced yields the header,
/// the protected-header bytes and the ciphertext, provided the ciphertext
/// carries at least a tag.
#[verifier::spinoff_prover]
#[verifier::rlimit(100)]
pub proof fn lemma_decode_of_encoded_envelope(
    device_id: u32,
    opcode: u16,
    kt: KeyType,
    nonce: Seq<u8>,
    ct: Seq<u8>,
)
    requires
        nonce.len() == spec_nonce_len(spec_alg_of(kt)),
        ct.len() >= 16,
        ct.len() <= 0xFFFF_FFFF,
    ensures
        spec_decode_envelope(
            spec_envelope_bytes(spec_protected_header_bytes(device_id, opcode, kt, nonce), ct),
        ) == Ok::<(ProtectedHeaderView, Seq<u8>, Seq<u8>), CoseCodecError>(
            (
                (ProtectedHeaderView { device_id, opcode, encryption_algorithm: kt, nonce }),
                spec_protected_header_bytes(device_id, opcode, kt, nonce),
                ct,
            ),
        ),
{
    lemma_decode_of_encoded_header(device_id, opcode, kt, nonce);
    lemma_ph_bytes_len(device_id, opcode, kt, nonce);
    lemma_decode_of_envelope_frame(
        spec_protected_header_bytes(device_id, opcode, kt, nonce),
        ct,
        (ProtectedHeaderView { device_id, opcode, encryption_algorithm: kt, nonce }),
    );
}

/// A decoded request: what the handler needs, plus the key that must
/// also seal the response.
pub struct DecodedMsg {
    pub device_id: u32,
    pub opcode: u16,
    pub key_type: KeyType,
    pub plaintext: Vec<u8>,
    pub key: Vec<u8>,
}

/// The message a sender holding the device's resolved key emits for this
/// request under this nonce.
#[verifier::opaque]
pub open spec fn spec_msg_from(
    c: crate::catalog::Catalog,
    kt: KeyType,
    dev: u32,
    op: u16,
    pt: Seq<u8>,
    nonce: Seq<u8>,
) -> Seq<u8> {
    spec_encoded_msg(
        kt,
        crate::catalog::spec_key_for_device(c, dev, kt)->Ok_0,
        dev,
        op,
        pt,
        nonce,
    )
}

/// The sender's side of a well-formed request: the device resolves a key
/// for the chosen algorithm, the nonce has the algorithm's length, the
/// plaintext is of sendable size, and sealing added the 16-byte tag.
#[verifier::opaque]
pub open spec fn spec_request_well_formed(
    c: crate::catalog::Catalog,
    kt: KeyType,
    dev: u32,
    op: u16,
    pt: Seq<u8>,
    nonce: Seq<u8>,
) -> bool {
    &&& crate::catalog::spec_key_for_device(c, dev, kt) is Ok
    &&& nonce.len() == spec_nonce_len(spec_alg_of(kt))
    &&& pt.len() <= 0xFFFF_FF00
    &&& seal(
        spec_alg_of(kt),
        crate::catalog::spec_key_for_device(c, dev, kt)->Ok_0,
        nonce,
        spec_aad_bytes(spec_protected_header_bytes(dev, op, kt, nonce)),
        pt,
    ).len() == pt.len() + 16
}

/// A well-formed request's frame decodes to its own header fields,
/// protected-header bytes, and sealed ciphertext.
#[verifier::spinoff_prover]
#[verifier::rlimit(100)]
pub proof fn lemma_request_decodes(
    c: crate::catalog::Catalog,
    kt: KeyType,
    dev: u32,
    op: u16,
    pt: Seq<u8>,
    nonce: Seq<u8>,
)
    requires
        spec_request_well_formed(c, kt, dev, op, pt, nonce),
    ensures
        crate::catalog::spec_key_for_device(c, dev, kt) is Ok,
        spec_decode_envelope(spec_msg_from(c, kt, dev, op, pt, nonce)) == Ok::<
            (ProtectedHeaderView, Seq<u8>, Seq<u8>),
            CoseCodecError,
        >(
            (
                (ProtectedHeaderView { device_id: dev, opcode: op, encryption_algorithm: kt, nonce }),
                spec_protected_header_bytes(dev, op, kt, nonce),
                seal(
                    spec_alg_of(kt),
                    crate::catalog::spec_key_for_device(c, dev, kt)->Ok_0,
                    nonce,
                    spec_aad_bytes(spec_protected_header_bytes(dev, op, kt, nonce)),
                    pt,
                ),
            ),
        ),
{
    reveal(spec_msg_from);
    reveal(spec_request_well_formed);
    lemma_decode_of_encoded_envelope(
        dev,
        op,
        kt,
        nonce,
        seal(
            spec_alg_of(kt),
            crate::catalog::spec_key_for_device(c, dev, kt)->Ok_0,
            nonce,
            spec_aad_bytes(spec_protected_header_bytes(dev, op, kt, nonce)),
            pt,
        ),
    );
}

/// Decode and decrypt one datagram against the catalog.  A structural
/// fault is classified exactly as `spec_decode_envelope` says; a key that
/// cannot be resolved or a ciphertext that does not authenticate fails
/// as a decryption error; and a message a sender built with the device's
/// key decodes to exactly what that sender put in.
#[verifier::spinoff_prover]
#[verifier::rlimit(100)]
pub fn decode_msg(catalog: &crate::catalog::Catalog, msg: &[u8]) -> (r: Result<
    DecodedMsg,
    CoseCodecError,
>)
    requires
        catalog.wf(),
        msg@.len() <= 0xFF_FFFF,
    ensures
        r matches Err(e) ==> (spec_decode_envelope(msg@) matches Err(e2) && e == e2) || (
        spec_decode_envelope(msg@) is Ok && e == CoseCodecError::DecryptionError),
        (spec_decode_envelope(msg@) matches Ok(parts) && crate::catalog::spec_key_for_device(
            *catalog,
            parts.0.device_id,
            parts.0.encryption_algorithm,
        ) matches Ok(k) && exists|pt: Seq<u8>|
            pt.len() <= 0xFFFF_FF00 && parts.2 == seal(
                spec_alg_of(parts.0.encryption_algorithm),
                k,
                parts.0.nonce,
                spec_aad_bytes(parts.1),
                pt,
            )) ==> r is Ok,
        r matches Ok(d) ==> spec_decode_envelope(msg@) matches Ok(parts) && {
            &&& d.device_id == parts.0.device_id
            &&& d.opcode == parts.0.opcode
            &&& d.key_type == parts.0.encryption_algorithm
            &&& (crate::catalog::spec_key_for_device(
                *catalog,
                parts.0.device_id,
                parts.0.encryption_algorithm,
            ) matches Ok(k) && d.key@ == k && parts.2 == seal(
                spec_alg_of(parts.0.encryption_algorithm),
                k,
                parts.0.nonce,
                spec_aad_bytes(parts.1),
                d.plaintext@,
            ))
        },
        forall|kt: KeyType, dev: u32, op: u16, pt: Seq<u8>, nonce: Seq<u8>|
            spec_request_well_formed(*catalog, kt, dev, op, pt, nonce) && msg@ == #[trigger] spec_msg_from(
                *catalog,
                kt,
                dev,
                op,
                pt,
                nonce,
            ) ==> (r matches Ok(d) && d.device_id == dev && d.opcode == op && d.key_type == kt
                && d.plaintext@ == pt),
{
    let parts = match parse_envelope(msg) {
        Ok(p) => p,
        Err(e) => {
            proof {
                assert forall|kt: KeyType, dev: u32, op: u16, pt: Seq<u8>, nonce: Seq<u8>|
                    spec_request_well_formed(*catalog, kt, dev, op, pt, nonce) && msg@
                        == #[trigger] spec_msg_from(*catalog, kt, dev, op, pt, nonce) implies false by {
                    lemma_request_decodes(*catalog, kt, dev, op, pt, nonce);
                }
            }
            return Err(e);
        },
    };
    let ghost hview = parts.header@;
    let mut key = match catalog.key_for_device(
        parts.header.device_id,
        parts.header.encryption_algorithm,
    ) {
        Ok(k) => k,
        Err(_) => {
            proof {
                assert forall|kt: KeyType, dev: u32, op: u16, pt: Seq<u8>, nonce: Seq<u8>|
                    spec_request_well_formed(*catalog, kt, dev, op, pt, nonce) && msg@
                        == #[trigger] spec_msg_from(*catalog, kt, dev, op, pt, nonce) implies false by {
                    lemma_request_decodes(*catalog, kt, dev, op, pt, nonce);
                }
            }
            return Err(CoseCodecError::DecryptionError);
        },
    };
    let ph_slice = vstd::slice::slice_subrange(msg, parts.ph_start, parts.ph_end);
    let aad = create_aad(ph_slice);
    let ct_slice = vstd::slice::slice_subrange(msg, parts.ct_start, parts.ct_end);
    let alg = alg_of(parts.header.encryption_algorithm);
    let pt = match crate::crypto::aead_decrypt(
        alg,
        key.as_slice(),
        parts.header.nonce.as_slice(),
        aad.as_slice(),
        ct_slice,
    ) {
        Ok(p) => p,
        Err(_) => {
            proof {
                assert forall|kt: KeyType, dev: u32, op: u16, pt2: Seq<u8>, nonce: Seq<u8>|
                    spec_request_well_formed(*catalog, kt, dev, op, pt2, nonce) && msg@
                        == #[trigger] spec_msg_from(*catalog, kt, dev, op, pt2, nonce) implies false by {
                    reveal(spec_request_well_formed);
                    lemma_request_decodes(*catalog, kt, dev, op, pt2, nonce);
                    let php = spec_protected_header_bytes(dev, op, kt, nonce);
                    assert(hview == (ProtectedHeaderView {
                        device_id: dev,
                        opcode: op,
                        encryption_algorithm: kt,
                        nonce,
                    }));
                    assert(ph_slice@ == php);
                    assert(aad@ == spec_aad_bytes(php));
                    assert(spec_aad_bytes(php).len() <= php.len() + 16);
                    assert(key@ == crate::catalog::spec_key_for_device(*catalog, dev, kt)->Ok_0);
                    assert(ct_slice@ == seal(spec_alg_of(kt), key@, nonce, aad@, pt2));
                }
                assert forall|pt2: Seq<u8>|
                    pt2.len() <= 0xFFFF_FF00 implies ct_slice@ != seal(
                    spec_alg_of(hview.encryption_algorithm),
                    key@,
                    hview.nonce,
                    spec_aad_bytes(ph_slice@),
                    pt2,
                ) by {
                    assert(aad@ == spec_aad_bytes(ph_slice@));
                    assert(aad@.len() <= 0xFFFF_FFFF) by {
                        assert(spec_aad_bytes(ph_slice@).len() <= ph_slice@.len() + 16);
                    }
                }
            }
            crate::crypto::wipe_bytes(&mut key);
            return Err(CoseCodecError::DecryptionError);
        },
    };
    proof {
        assert forall|kt: KeyType, dev: u32, op: u16, pt2: Seq<u8>, nonce: Seq<u8>|
            spec_request_well_formed(*catalog, kt, dev, op, pt2, nonce) && msg@
                == #[trigger] spec_msg_from(*catalog, kt, dev, op, pt2, nonce) implies hview.device_id
            == dev && hview.opcode == op && hview.encryption_algorithm == kt && pt@ == pt2 by {
            reveal(spec_request_well_formed);
            lemma_request_decodes(*catalog, kt, dev, op, pt2, nonce);
            let php = spec_protected_header_bytes(dev, op, kt, nonce);
            assert(hview == (ProtectedHeaderView {
                device_id: dev,
                opcode: op,
                encryption_algorithm: kt,
                nonce,
            }));
            assert(ph_slice@ == php);
            assert(aad@ == spec_aad_bytes(php));
            assert(key@ == crate::catalog::spec_key_for_device(*catalog, dev, kt)->Ok_0);
            assert(ct_slice@ == seal(spec_alg_of(kt), key@, nonce, aad@, pt2));
        }
    }
    Ok(DecodedMsg {
        device_id: parts.header.device_id,
        opcode: parts.header.opcode,
        key_type: parts.header.encryption_algorithm,
        plaintext: pt,
        key,
    })
}

} // verus!
