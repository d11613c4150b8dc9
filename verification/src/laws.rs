//! The properties the library states of itself, beyond each function's
//! own contract: determinism and injectivity of the envelope encoding,
//! rejection of unknown critical headers, the key-set invariant, and the
//! end-of-image behaviour of range reads.

use crate::catalog::{catalog_wf, Catalog, KeyStatus};
use crate::cbor::{
    head, is_break, parse_bytes, parse_container, parse_uint, BREAK_BYTE, MAJOR_ARRAY, MAJOR_BYTES,
    MAJOR_MAP, MAJOR_UINT,
};
use crate::cose::{
    crit_items, empty_header_decode, finish_header, ph_entries, spec_alg_of, spec_alg_tag,
    spec_decode_protected_header, spec_encoded_msg, CoseCodecError, KeyType,
    ProtectedHeaderDecodeView, ProtectedHeaderView, HDR_ALGORITHM, HDR_CRITICAL, HDR_DEVICE_ID,
    HDR_NONCE, HDR_OPCODE,
};
use crate::crypto::spec_nonce_len;
use crate::handler::spec_read_range;
use vstd::prelude::*;

verus! {

/// Encoding pins the header down: two messages that are equal byte for
/// byte carry the same algorithm, device, opcode, nonce and ciphertext.
pub proof fn lemma_encode_injective(
    kt1: KeyType,
    key1: Seq<u8>,
    dev1: u32,
    op1: u16,
    pt1: Seq<u8>,
    nonce1: Seq<u8>,
    kt2: KeyType,
    key2: Seq<u8>,
    dev2: u32,
    op2: u16,
    pt2: Seq<u8>,
    nonce2: Seq<u8>,
)
    requires
        nonce1.len() == spec_nonce_len(spec_alg_of(kt1)),
        nonce2.len() == spec_nonce_len(spec_alg_of(kt2)),
        crate::crypto::seal(
            spec_alg_of(kt1),
            key1,
            nonce1,
            crate::cose::spec_aad_bytes(
                crate::cose::spec_protected_header_bytes(dev1, op1, kt1, nonce1),
            ),
            pt1,
        ).len() == pt1.len() + 16,
        crate::crypto::seal(
            spec_alg_of(kt2),
            key2,
            nonce2,
            crate::cose::spec_aad_bytes(
                crate::cose::spec_protected_header_bytes(dev2, op2, kt2, nonce2),
            ),
            pt2,
        ).len() == pt2.len() + 16,
        pt1.len() <= 0xFFFF_FF00,
        pt2.len() <= 0xFFFF_FF00,
        spec_encoded_msg(kt1, key1, dev1, op1, pt1, nonce1) == spec_encoded_msg(
            kt2,
            key2,
            dev2,
            op2,
            pt2,
            nonce2,
        ),
    ensures
        kt1 == kt2,
        dev1 == dev2,
        op1 == op2,
        nonce1 == nonce2,
{
    crate::cose::lemma_decode_of_encoded_envelope(
        dev1,
        op1,
        kt1,
        nonce1,
        crate::crypto::seal(
            spec_alg_of(kt1),
            key1,
            nonce1,
            crate::cose::spec_aad_bytes(
                crate::cose::spec_protected_header_bytes(dev1, op1, kt1, nonce1),
            ),
            pt1,
        ),
    );
    crate::cose::lemma_decode_of_encoded_envelope(
        dev2,
        op2,
        kt2,
        nonce2,
        crate::crypto::seal(
            spec_alg_of(kt2),
            key2,
            nonce2,
            crate::cose::spec_aad_bytes(
                crate::cose::spec_protected_header_bytes(dev2, op2, kt2, nonce2),
            ),
            pt2,
        ),
    );
}

/// The walk over a critical-header list refuses any entry other than the
/// two understood header ids, with the dedicated error.
pub proof fn lemma_unknown_critical_header_rejected(
    s: Seq<u8>,
    pos: int,
    remaining: Option<nat>,
    id: nat,
    next: int,
)
    requires
        parse_uint(s, pos, 25) == Some((id, next)),
        remaining != Some(0nat),
        !(remaining is None && crate::cbor::is_break(s, pos)),
        id != HDR_DEVICE_ID as nat,
        id != HDR_OPCODE as nat,
    ensures
        crit_items(s, pos, remaining) == Err::<int, CoseCodecError>(
            CoseCodecError::UnknownCriticalHeader,
        ),
{
}

/// Per device, the catalog never holds two ACTIVE keys nor two NEXT keys.
pub proof fn lemma_key_statuses_exclusive(c: Catalog, device: u32, i: int, j: int)
    requires
        catalog_wf(c),
        0 <= i < c.keys@.len(),
        0 <= j < c.keys@.len(),
        i != j,
        c.keys@[i].device == device,
        c.keys@[j].device == device,
    ensures
        !(c.keys@[i].status == KeyStatus::Active && c.keys@[j].status == KeyStatus::Active),
        !(c.keys@[i].status == KeyStatus::Next && c.keys@[j].status == KeyStatus::Next),
{
    reveal(catalog_wf);
}

/// A read that starts at or past the end of the image returns nothing.
pub proof fn lemma_read_past_end_empty(data: Seq<u8>, offset: int, length: int)
    requires
        offset >= data.len(),
    ensures
        spec_read_range(data, offset, length).len() == 0,
{
}

/// A short read means the end of the image was reached: the window ends
/// exactly at the image's last byte.
pub proof fn lemma_short_read_is_eof(data: Seq<u8>, offset: int, length: int)
    requires
        0 <= offset,
        0 <= length,
        spec_read_range(data, offset, length).len() < length,
    ensures
        offset + spec_read_range(data, offset, length).len() >= data.len(),
{
}

/// The serialized entries of a critical-header list, one head per id.
pub open spec fn spec_crit_ids_bytes(ids: Seq<u16>) -> Seq<u8>
    decreases ids.len(),
{
    if ids.len() == 0 {
        Seq::<u8>::empty()
    } else {
        head(MAJOR_UINT, ids[0] as u64) + spec_crit_ids_bytes(ids.drop_first())
    }
}

/// Split a window of `s` that holds `chunk + rest` into its two parts.
proof fn lemma_peel_window(s: Seq<u8>, pos: int, chunk: Seq<u8>, rest: Seq<u8>)
    requires
        0 <= pos,
        pos + chunk.len() + rest.len() <= s.len(),
        s.subrange(pos, pos + chunk.len() + rest.len()) == chunk + rest,
    ensures
        s.subrange(pos, pos + chunk.len()) == chunk,
        s.subrange(pos + chunk.len(), pos + chunk.len() + rest.len()) == rest,
{
    let total = chunk.len() + rest.len();
    assert forall|k: int| 0 <= k < chunk.len() implies s.subrange(pos, pos + chunk.len())[k]
        == chunk[k] by {
        assert(s.subrange(pos, pos + total)[k] == (chunk + rest)[k]);
        assert(s.subrange(pos, pos + total)[k] == s[pos + k]);
        assert(s.subrange(pos, pos + chunk.len())[k] == s[pos + k]);
    }
    assert(s.subrange(pos, pos + chunk.len()) =~= chunk);
    assert forall|k: int| 0 <= k < rest.len() implies s.subrange(
        pos + chunk.len(),
        pos + total,
    )[k] == rest[k] by {
        assert(s.subrange(pos, pos + total)[chunk.len() + k] == (chunk + rest)[chunk.len() + k]);
        assert(s.subrange(pos, pos + total)[chunk.len() + k] == s[pos + chunk.len() + k]);
        assert(s.subrange(pos + chunk.len(), pos + total)[k] == s[pos + chunk.len() + k]);
    }
    assert(s.subrange(pos + chunk.len(), pos + total) =~= rest);
}

/// The critical-header policy over whole lists: the walk over an encoded
/// id list succeeds exactly when every id is one of the two understood
/// header ids, and any other value anywhere in the list fails with
/// the dedicated error.
pub proof fn lemma_crit_list_policy(s: Seq<u8>, pos: int, ids: Seq<u16>)
    requires
        0 <= pos,
        pos + spec_crit_ids_bytes(ids).len() <= s.len(),
        s.subrange(pos, pos + spec_crit_ids_bytes(ids).len() as int) == spec_crit_ids_bytes(ids),
    ensures
        (forall|k: int| 0 <= k < ids.len() ==> ids[k] == HDR_DEVICE_ID || ids[k] == HDR_OPCODE)
            ==> crit_items(s, pos, Some(ids.len() as nat)) == Ok::<int, CoseCodecError>(
            pos + spec_crit_ids_bytes(ids).len(),
        ),
        (exists|k: int| 0 <= k < ids.len() && ids[k] != HDR_DEVICE_ID && ids[k] != HDR_OPCODE)
            ==> crit_items(s, pos, Some(ids.len() as nat)) == Err::<int, CoseCodecError>(
            CoseCodecError::UnknownCriticalHeader,
        ),
    decreases ids.len(),
{
    if ids.len() == 0 {
        assert(crit_items(s, pos, Some(0nat)) == Ok::<int, CoseCodecError>(pos));
    } else {
        let h0 = head(MAJOR_UINT, ids[0] as u64);
        let rest = spec_crit_ids_bytes(ids.drop_first());
        assert(spec_crit_ids_bytes(ids) == h0 + rest);
        lemma_peel_window(s, pos, h0, rest);
        crate::cbor::lemma_parse_uint_of_encoded(s, pos, ids[0] as u64, 25);
        let next = pos + h0.len();
        if ids[0] != HDR_DEVICE_ID && ids[0] != HDR_OPCODE {
            assert(crit_items(s, pos, Some(ids.len() as nat)) == Err::<int, CoseCodecError>(
                CoseCodecError::UnknownCriticalHeader,
            ));
            assert(exists|k: int|
                0 <= k < ids.len() && ids[k] != HDR_DEVICE_ID && ids[k] != HDR_OPCODE) by {
                assert(ids[0] != HDR_DEVICE_ID && ids[0] != HDR_OPCODE);
            }
        } else {
            lemma_crit_list_policy(s, next, ids.drop_first());
            assert(crit_items(s, pos, Some(ids.len() as nat)) == crit_items(
                s,
                next,
                Some(ids.drop_first().len() as nat),
            ));
            if exists|k: int|
                0 <= k < ids.len() && ids[k] != HDR_DEVICE_ID && ids[k] != HDR_OPCODE {
                let k = choose|k: int|
                    0 <= k < ids.len() && ids[k] != HDR_DEVICE_ID && ids[k] != HDR_OPCODE;
                assert(k >= 1);
                assert(ids.drop_first()[k - 1] == ids[k]);
                assert(exists|j: int|
                    0 <= j < ids.drop_first().len() && ids.drop_first()[j] != HDR_DEVICE_ID
                        && ids.drop_first()[j] != HDR_OPCODE);
            }
            if forall|k: int| 0 <= k < ids.len() ==> ids[k] == HDR_DEVICE_ID || ids[k]
                == HDR_OPCODE {
                assert forall|j: int| 0 <= j < ids.drop_first().len() implies ids.drop_first()[j]
                    == HDR_DEVICE_ID || ids.drop_first()[j] == HDR_OPCODE by {
                    assert(ids.drop_first()[j] == ids[j + 1]);
                }
            }
        }
    }
}

/// A protected-header map entry whose critical list holds any value
/// other than the two understood header ids makes the whole header walk
/// fail with the dedicated error.
pub proof fn lemma_critical_entry_rejects_bad_list(
    s: Seq<u8>,
    pos: int,
    remaining: Option<nat>,
    f: ProtectedHeaderDecodeView,
    p1: int,
    p2: int,
    ids: Seq<u16>,
)
    requires
        remaining != Some(0nat),
        !(remaining is None && crate::cbor::is_break(s, pos)),
        parse_uint(s, pos, 25) == Some((crate::cose::HDR_CRITICAL as nat, p1)),
        crate::cbor::parse_container(s, p1, MAJOR_ARRAY) == Some((Some(ids.len() as nat), p2)),
        0 <= p2,
        p2 + spec_crit_ids_bytes(ids).len() <= s.len(),
        s.subrange(p2, p2 + spec_crit_ids_bytes(ids).len() as int) == spec_crit_ids_bytes(ids),
        exists|k: int| 0 <= k < ids.len() && ids[k] != HDR_DEVICE_ID && ids[k] != HDR_OPCODE,
    ensures
        ph_entries(s, pos, remaining, f) == Err::<
            (ProtectedHeaderDecodeView, int),
            CoseCodecError,
        >(CoseCodecError::UnknownCriticalHeader),
{
    lemma_crit_list_policy(s, p2, ids);
}

/// The same protected header serialized with indefinite-length
/// containers: the map and the critical-header list run to a break byte.
pub open spec fn spec_protected_header_bytes_indef(
    device_id: u32,
    opcode: u16,
    kt: KeyType,
    nonce: Seq<u8>,
) -> Seq<u8> {
    seq![(MAJOR_MAP * 32 + 31) as u8] + (head(MAJOR_UINT, HDR_ALGORITHM as u64) + (head(
        MAJOR_UINT,
        spec_alg_tag(kt) as u64,
    ) + (head(MAJOR_UINT, HDR_DEVICE_ID as u64) + (head(MAJOR_UINT, device_id as u64) + (head(
        MAJOR_UINT,
        HDR_OPCODE as u64,
    ) + (head(MAJOR_UINT, opcode as u64) + (head(MAJOR_UINT, HDR_NONCE as u64) + (head(
        MAJOR_BYTES,
        nonce.len() as u64,
    ) + (nonce + (head(MAJOR_UINT, HDR_CRITICAL as u64) + (seq![(MAJOR_ARRAY * 32 + 31) as u8]
        + (head(MAJOR_UINT, HDR_DEVICE_ID as u64) + (head(MAJOR_UINT, HDR_OPCODE as u64) + (seq![
        BREAK_BYTE,
    ] + seq![BREAK_BYTE]))))))))))))))
}

/// A position a successful unsigned-integer parse starts at does not
/// hold a break byte.
proof fn lemma_uint_start_is_not_break(s: Seq<u8>, pos: int, max_ai: u8)
    requires
        parse_uint(s, pos, max_ai) is Some,
    ensures
        !is_break(s, pos),
{
    if is_break(s, pos) {
        assert(s[pos] == 0xFF);
        assert(s[pos] / 32 == 7);
    }
}

/// Walking the five map entries of the indefinite-length serialization,
/// given where each parses and where the break bytes stand.
#[verifier::spinoff_prover]
#[verifier::rlimit(100)]
proof fn lemma_ph_walk_indef(
    s: Seq<u8>,
    device_id: u32,
    opcode: u16,
    kt: KeyType,
    nonce: Seq<u8>,
    q0: int,
    q1: int,
    q2: int,
    q3: int,
    q4: int,
    q5: int,
    q6: int,
    q7: int,
    q9: int,
    q10: int,
    q11: int,
    q12: int,
    q13: int,
    q14: int,
)
    requires
        0 <= q0 < q2 < q4 < q6 < q9 < q14,
        q10 < q11 < q12 < q13 < q14,
        q14 == q13 + 1,
        q14 + 1 <= s.len(),
        parse_uint(s, q0, 25) == Some((HDR_ALGORITHM as nat, q1)),
        parse_uint(s, q1, 25) == Some((spec_alg_tag(kt) as nat, q2)),
        parse_uint(s, q2, 25) == Some((HDR_DEVICE_ID as nat, q3)),
        parse_uint(s, q3, 26) == Some((device_id as nat, q4)),
        parse_uint(s, q4, 25) == Some((HDR_OPCODE as nat, q5)),
        parse_uint(s, q5, 25) == Some((opcode as nat, q6)),
        parse_uint(s, q6, 25) == Some((HDR_NONCE as nat, q7)),
        parse_bytes(s, q7) == Some((nonce, q9)),
        parse_uint(s, q9, 25) == Some((HDR_CRITICAL as nat, q10)),
        parse_container(s, q10, MAJOR_ARRAY) == Some((None::<nat>, q11)),
        parse_uint(s, q11, 25) == Some((HDR_DEVICE_ID as nat, q12)),
        parse_uint(s, q12, 25) == Some((HDR_OPCODE as nat, q13)),
        is_break(s, q13),
        is_break(s, q14),
    ensures
        ph_entries(s, q0, None, empty_header_decode()) == Ok::<
            (ProtectedHeaderDecodeView, int),
            CoseCodecError,
        >(
            (
                (ProtectedHeaderDecodeView {
                    device_id: Some(device_id),
                    opcode: Some(opcode),
                    encryption_algorithm: Some(kt),
                    nonce: Some(nonce),
                    critical_seen: true,
                }),
                q14 + 1,
            ),
        ),
{
    lemma_uint_start_is_not_break(s, q0, 25);
    lemma_uint_start_is_not_break(s, q2, 25);
    lemma_uint_start_is_not_break(s, q4, 25);
    lemma_uint_start_is_not_break(s, q6, 25);
    lemma_uint_start_is_not_break(s, q9, 25);
    lemma_uint_start_is_not_break(s, q11, 25);
    lemma_uint_start_is_not_break(s, q12, 25);
    assert(crit_items(s, q13, None) == Ok::<int, CoseCodecError>(q13 + 1));
    assert(crit_items(s, q12, None) == crit_items(s, q13, None));
    assert(crit_items(s, q11, None) == crit_items(s, q12, None));
    let f0 = empty_header_decode();
    let f1 = ProtectedHeaderDecodeView { encryption_algorithm: Some(kt), ..f0 };
    let f2 = ProtectedHeaderDecodeView { device_id: Some(device_id), ..f1 };
    let f3 = ProtectedHeaderDecodeView { opcode: Some(opcode), ..f2 };
    let f4 = ProtectedHeaderDecodeView { nonce: Some(nonce), ..f3 };
    let f5 = ProtectedHeaderDecodeView { critical_seen: true, ..f4 };
    assert(spec_alg_tag(kt) == 1 || spec_alg_tag(kt) == 35);
    assert(ph_entries(s, q0, None, f0) == ph_entries(s, q2, None, f1));
    assert(ph_entries(s, q2, None, f1) == ph_entries(s, q4, None, f2));
    assert(ph_entries(s, q4, None, f2) == ph_entries(s, q6, None, f3));
    assert(ph_entries(s, q6, None, f3) == ph_entries(s, q9, None, f4));
    assert(ph_entries(s, q9, None, f4) == ph_entries(s, q14, None, f5));
    assert(ph_entries(s, q14, None, f5) == Ok::<(ProtectedHeaderDecodeView, int), CoseCodecError>(
        (f5, q14 + 1),
    ));
}

/// The subrange facts of the indefinite-length serialization: each piece
/// stands at its cumulative offset.
#[verifier::spinoff_prover]
#[verifier::rlimit(100)]
proof fn lemma_ph_chunks_indef(device_id: u32, opcode: u16, kt: KeyType, nonce: Seq<u8>)
    ensures
        ({
            let s = spec_protected_header_bytes_indef(device_id, opcode, kt, nonce);
            let c1 = head(MAJOR_UINT, HDR_ALGORITHM as u64);
            let c2 = head(MAJOR_UINT, spec_alg_tag(kt) as u64);
            let c3 = head(MAJOR_UINT, HDR_DEVICE_ID as u64);
            let c4 = head(MAJOR_UINT, device_id as u64);
            let c5 = head(MAJOR_UINT, HDR_OPCODE as u64);
            let c6 = head(MAJOR_UINT, opcode as u64);
            let c7 = head(MAJOR_UINT, HDR_NONCE as u64);
            let c8 = head(MAJOR_BYTES, nonce.len() as u64);
            let c10 = head(MAJOR_UINT, HDR_CRITICAL as u64);
            let q0 = 1int;
            let q1 = q0 + c1.len();
            let q2 = q1 + c2.len();
            let q3 = q2 + c3.len();
            let q4 = q3 + c4.len();
            let q5 = q4 + c5.len();
            let q6 = q5 + c6.len();
            let q7 = q6 + c7.len();
            let q9 = q7 + c8.len() + nonce.len();
            let q10 = q9 + c10.len();
            let q11 = q10 + 1;
            let q12 = q11 + c3.len();
            let q13 = q12 + c5.len();
            let q14 = q13 + 1;
            &&& s.len() == q14 + 1
            &&& s[0] == (MAJOR_MAP * 32 + 31) as u8
            &&& s.subrange(q0, q1) == c1
            &&& s.subrange(q1, q2) == c2
            &&& s.subrange(q2, q3) == c3
            &&& s.subrange(q3, q4) == c4
            &&& s.subrange(q4, q5) == c5
            &&& s.subrange(q5, q6) == c6
            &&& s.subrange(q6, q7) == c7
            &&& s.subrange(q7, q9) == c8 + nonce
            &&& s.subrange(q9, q10) == c10
            &&& s[q10] == (MAJOR_ARRAY * 32 + 31) as u8
            &&& s.subrange(q11, q12) == c3
            &&& s.subrange(q12, q13) == c5
            &&& s[q13] == BREAK_BYTE
            &&& s[q14] == BREAK_BYTE
        }),
{
    let s = spec_protected_header_bytes_indef(device_id, opcode, kt, nonce);
    let c0 = seq![(MAJOR_MAP * 32 + 31) as u8];
    let c1 = head(MAJOR_UINT, HDR_ALGORITHM as u64);
    let c2 = head(MAJOR_UINT, spec_alg_tag(kt) as u64);
    let c3 = head(MAJOR_UINT, HDR_DEVICE_ID as u64);
    let c4 = head(MAJOR_UINT, device_id as u64);
    let c5 = head(MAJOR_UINT, HDR_OPCODE as u64);
    let c6 = head(MAJOR_UINT, opcode as u64);
    let c7 = head(MAJOR_UINT, HDR_NONCE as u64);
    let c8 = head(MAJOR_BYTES, nonce.len() as u64);
    let c10 = head(MAJOR_UINT, HDR_CRITICAL as u64);
    let c11 = seq![(MAJOR_ARRAY * 32 + 31) as u8];
    let cb = seq![BREAK_BYTE];
    let r15 = cb;
    let r14 = cb + r15;
    let r13 = c5 + r14;
    let r12 = c3 + r13;
    let r11 = c11 + r12;
    let r10 = c10 + r11;
    let r9 = nonce + r10;
    let r8 = c8 + r9;
    let r7 = c7 + r8;
    let r6 = c6 + r7;
    let r5 = c5 + r6;
    let r4 = c4 + r5;
    let r3 = c3 + r4;
    let r2 = c2 + r3;
    let r1 = c1 + r2;
    assert(s == c0 + r1);
    let q0 = 1int;
    let q1 = q0 + c1.len();
    let q2 = q1 + c2.len();
    let q3 = q2 + c3.len();
    let q4 = q3 + c4.len();
    let q5 = q4 + c5.len();
    let q6 = q5 + c6.len();
    let q7 = q6 + c7.len();
    let q8 = q7 + c8.len();
    let q9 = q8 + nonce.len();
    let q10 = q9 + c10.len();
    let q11 = q10 + 1;
    let q12 = q11 + c3.len();
    let q13 = q12 + c5.len();
    let q14 = q13 + 1;
    assert(s.subrange(0, s.len() as int) =~= s);
    lemma_peel_window(s, 0, c0, r1);
    lemma_peel_window(s, q0, c1, r2);
    lemma_peel_window(s, q1, c2, r3);
    lemma_peel_window(s, q2, c3, r4);
    lemma_peel_window(s, q3, c4, r5);
    lemma_peel_window(s, q4, c5, r6);
    lemma_peel_window(s, q5, c6, r7);
    lemma_peel_window(s, q6, c7, r8);
    lemma_peel_window(s, q7, c8, r9);
    lemma_peel_window(s, q8, nonce, r10);
    lemma_peel_window(s, q9, c10, r11);
    lemma_peel_window(s, q10, c11, r12);
    lemma_peel_window(s, q11, c3, r13);
    lemma_peel_window(s, q12, c5, r14);
    lemma_peel_window(s, q13, cb, r15);
    lemma_peel_window(s, q14, cb, Seq::empty());
    assert(s[0] == (MAJOR_MAP * 32 + 31) as u8) by {
        assert(s.subrange(0, 1)[0] == s[0]);
    }
    assert(s[q10] == (MAJOR_ARRAY * 32 + 31) as u8) by {
        assert(s.subrange(q10, q11)[0] == s[q10]);
    }
    assert(s[q13] == BREAK_BYTE) by {
        assert(s.subrange(q13, q13 + 1)[0] == s[q13]);
    }
    assert(s[q14] == BREAK_BYTE) by {
        assert(s.subrange(q14, q14 + 1)[0] == s[q14]);
    }
    assert(s.subrange(q7, q9) =~= c8 + nonce) by {
        assert forall|k: int| 0 <= k < c8.len() + nonce.len() implies s.subrange(q7, q9)[k] == (c8
            + nonce)[k] by {
            if k < c8.len() {
                assert(s.subrange(q7, q8)[k] == s[q7 + k]);
            } else {
                assert(s.subrange(q8, q9)[k - c8.len()] == s[q8 + (k - c8.len())]);
            }
            assert(s.subrange(q7, q9)[k] == s[q7 + k]);
        }
    }
}

/// The decoder accepts indefinite-length containers: the header
/// serialized with an indefinite-length map and critical list decodes to
/// exactly the same fields as the fixed-length serialization.
#[verifier::spinoff_prover]
#[verifier::rlimit(100)]
pub proof fn lemma_decode_of_indefinite_header(
    device_id: u32,
    opcode: u16,
    kt: KeyType,
    nonce: Seq<u8>,
)
    requires
        nonce.len() <= 0xFFFF,
    ensures
        spec_decode_protected_header(
            spec_protected_header_bytes_indef(device_id, opcode, kt, nonce),
        ) == Ok::<ProtectedHeaderView, CoseCodecError>(
            (ProtectedHeaderView { device_id, opcode, encryption_algorithm: kt, nonce }),
        ),
        spec_decode_protected_header(
            spec_protected_header_bytes_indef(device_id, opcode, kt, nonce),
        ) == spec_decode_protected_header(
            crate::cose::spec_protected_header_bytes(device_id, opcode, kt, nonce),
        ),
{
    let s = spec_protected_header_bytes_indef(device_id, opcode, kt, nonce);
    let c1 = head(MAJOR_UINT, HDR_ALGORITHM as u64);
    let c2 = head(MAJOR_UINT, spec_alg_tag(kt) as u64);
    let c3 = head(MAJOR_UINT, HDR_DEVICE_ID as u64);
    let c4 = head(MAJOR_UINT, device_id as u64);
    let c5 = head(MAJOR_UINT, HDR_OPCODE as u64);
    let c6 = head(MAJOR_UINT, opcode as u64);
    let c7 = head(MAJOR_UINT, HDR_NONCE as u64);
    let c8 = head(MAJOR_BYTES, nonce.len() as u64);
    let c10 = head(MAJOR_UINT, HDR_CRITICAL as u64);
    let q0 = 1int;
    let q1 = q0 + c1.len();
    let q2 = q1 + c2.len();
    let q3 = q2 + c3.len();
    let q4 = q3 + c4.len();
    let q5 = q4 + c5.len();
    let q6 = q5 + c6.len();
    let q7 = q6 + c7.len();
    let q9 = q7 + c8.len() + nonce.len();
    let q10 = q9 + c10.len();
    let q11 = q10 + 1;
    let q12 = q11 + c3.len();
    let q13 = q12 + c5.len();
    let q14 = q13 + 1;
    lemma_ph_chunks_indef(device_id, opcode, kt, nonce);
    crate::cbor::lemma_parse_uint_of_encoded(s, q0, HDR_ALGORITHM as u64, 25);
    crate::cbor::lemma_parse_uint_of_encoded(s, q1, spec_alg_tag(kt) as u64, 25);
    crate::cbor::lemma_parse_uint_of_encoded(s, q2, HDR_DEVICE_ID as u64, 25);
    crate::cbor::lemma_parse_uint_of_encoded(s, q3, device_id as u64, 26);
    crate::cbor::lemma_parse_uint_of_encoded(s, q4, HDR_OPCODE as u64, 25);
    crate::cbor::lemma_parse_uint_of_encoded(s, q5, opcode as u64, 25);
    crate::cbor::lemma_parse_uint_of_encoded(s, q6, HDR_NONCE as u64, 25);
    crate::cbor::lemma_parse_bytes_of_encoded(s, q7, nonce);
    crate::cbor::lemma_parse_uint_of_encoded(s, q9, HDR_CRITICAL as u64, 25);
    crate::cbor::lemma_parse_uint_of_encoded(s, q11, HDR_DEVICE_ID as u64, 25);
    crate::cbor::lemma_parse_uint_of_encoded(s, q12, HDR_OPCODE as u64, 25);
    assert(parse_container(s, q10, MAJOR_ARRAY) == Some((None::<nat>, q11)));
    lemma_ph_walk_indef(
        s,
        device_id,
        opcode,
        kt,
        nonce,
        q0,
        q1,
        q2,
        q3,
        q4,
        q5,
        q6,
        q7,
        q9,
        q10,
        q11,
        q12,
        q13,
        q14,
    );
    assert(parse_container(s, 0, MAJOR_MAP) == Some((None::<nat>, 1int)));
    let f5 = ProtectedHeaderDecodeView {
        device_id: Some(device_id),
        opcode: Some(opcode),
        encryption_algorithm: Some(kt),
        nonce: Some(nonce),
        critical_seen: true,
    };
    assert(finish_header(f5) == Ok::<ProtectedHeaderView, CoseCodecError>(
        (ProtectedHeaderView { device_id, opcode, encryption_algorithm: kt, nonce }),
    ));
    crate::cose::lemma_decode_of_encoded_header(device_id, opcode, kt, nonce);
}

/// The blob store mirrors the firmware rows exactly: a stored image
/// exists for a file id precisely when a row reaches it, and it holds
/// exactly the row's size in bytes.
pub proof fn lemma_blob_store_matches_rows(c: Catalog)
    requires
        catalog_wf(c),
    ensures
        c.blobs@.len() == c.firmwares@.len(),
        forall|i: int|
            #![trigger c.blobs@[i]]
            0 <= i < c.firmwares@.len() ==> c.blobs@[i].file_id@ == c.firmwares@[i].file_id@
                && c.blobs@[i].data@.len() == c.firmwares@[i].size,
{
    reveal(catalog_wf);
}

} // verus!
