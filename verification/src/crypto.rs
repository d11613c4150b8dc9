//! The two authenticated-encryption algorithms the wire protocol offers,
//! behind trusted wrappers.  Each algorithm is deterministic, so what a
//! sealing call returns is given a name (`aes_gcm_seal`, `ascon_seal`) that
//! the envelope codec's contracts build on.

use aes_gcm::aead::{Aead, KeyInit, Payload};
use vstd::prelude::*;

verus! {

/// The algorithms the catalog can hold keys for.
#[derive(Clone, Copy, PartialEq, Eq, Structural, Debug)]
pub enum CryptoAlgorithm {
    AesGcm128,
    AsconAead128,
}

/// What an encryption or decryption call can fail with.
#[derive(Clone, Copy, PartialEq, Eq, Structural, Debug)]
pub enum CryptoError {
    KeyError,
    NonceError,
    EncryptionError,
    DecryptionError,
}

/// Key length in bytes.
pub open spec fn spec_key_len(alg: CryptoAlgorithm) -> int {
    match alg {
        CryptoAlgorithm::AesGcm128 => 16,
        CryptoAlgorithm::AsconAead128 => 16,
    }
}

/// Nonce length in bytes.
pub open spec fn spec_nonce_len(alg: CryptoAlgorithm) -> int {
    match alg {
        CryptoAlgorithm::AesGcm128 => 12,
        CryptoAlgorithm::AsconAead128 => 16,
    }
}

/// Tag length in bytes.
pub open spec fn spec_tag_len(alg: CryptoAlgorithm) -> int {
    match alg {
        CryptoAlgorithm::AesGcm128 => 16,
        CryptoAlgorithm::AsconAead128 => 16,
    }
}

/// What AES-GCM-128 sealing (encrypt-then-tag) returns for a key, nonce,
/// associated data and plaintext.  The algorithm is deterministic, so the
/// result is a function of these four arguments alone.
pub uninterp spec fn aes_gcm_seal(key: Seq<u8>, nonce: Seq<u8>, aad: Seq<u8>, pt: Seq<u8>) -> Seq<
    u8,
>;

/// What Ascon-AEAD128 sealing returns, as `aes_gcm_seal` for AES-GCM-128.
pub uninterp spec fn ascon_seal(key: Seq<u8>, nonce: Seq<u8>, aad: Seq<u8>, pt: Seq<u8>) -> Seq<u8>;

/// What sealing under `alg` returns.
pub open spec fn seal(
    alg: CryptoAlgorithm,
    key: Seq<u8>,
    nonce: Seq<u8>,
    aad: Seq<u8>,
    pt: Seq<u8>,
) -> Seq<u8> {
    match alg {
        CryptoAlgorithm::AesGcm128 => aes_gcm_seal(key, nonce, aad, pt),
        CryptoAlgorithm::AsconAead128 => ascon_seal(key, nonce, aad, pt),
    }
}

/// Relies on aes_gcm::Aes128Gcm through aead::Aead::encrypt: a
/// deterministic function of key, nonce, associated data and plaintext;
/// the result is the ciphertext with the 16-byte tag appended; the call
/// refuses only a plaintext over 2^36 - 32 bytes or associated data over
/// 2^61 - 1 bytes.
#[verifier::external_body]
fn aes_gcm_encrypt_raw(key: &[u8], nonce: &[u8], aad: &[u8], pt: &[u8]) -> (r: Result<
    Vec<u8>,
    CryptoError,
>)
    requires
        key@.len() == 16,
        nonce@.len() == 12,
    ensures
        r matches Ok(c) ==> c@ == aes_gcm_seal(key@, nonce@, aad@, pt@) && c@.len() == pt@.len()
            + 16,
        pt@.len() <= 0xF_FFFF_FFE0 && aad@.len() <= 0x1FFF_FFFF_FFFF_FFFF ==> r is Ok,
        r matches Err(e) ==> e == CryptoError::EncryptionError,
{
    let key = aes_gcm::Key::<aes_gcm::Aes128Gcm>::try_from(key).map_err(
        |_| CryptoError::KeyError,
    )?;
    let nonce = aes_gcm::Nonce::<aes_gcm::aead::consts::U12>::try_from(nonce).map_err(
        |_| CryptoError::NonceError,
    )?;
    let cipher = aes_gcm::Aes128Gcm::new(&key);
    cipher.encrypt(&nonce, Payload { msg: pt, aad }).map_err(|_| CryptoError::EncryptionError)
}

/// Relies on aes_gcm::Aes128Gcm through aead::Aead::decrypt: succeeds with
/// the sealed plaintext exactly on what sealing under the same key, nonce
/// and associated data produces, and refuses everything else.
#[verifier::external_body]
fn aes_gcm_decrypt_raw(key: &[u8], nonce: &[u8], aad: &[u8], ct: &[u8]) -> (r: Result<
    Vec<u8>,
    CryptoError,
>)
    requires
        key@.len() == 16,
        nonce@.len() == 12,
    ensures
        r matches Ok(p) ==> ct@ == aes_gcm_seal(key@, nonce@, aad@, p@),
        r matches Ok(q) ==> forall|p: Seq<u8>|
            ct@ == aes_gcm_seal(key@, nonce@, aad@, p) ==> p == q@,
        !(r is Ok) ==> forall|p: Seq<u8>|
            p.len() <= 0xF_FFFF_FFE0 && aad@.len() <= 0x1FFF_FFFF_FFFF_FFFF ==> ct@
                != aes_gcm_seal(key@, nonce@, aad@, p),
        r matches Err(e) ==> e == CryptoError::DecryptionError,
{
    let key = aes_gcm::Key::<aes_gcm::Aes128Gcm>::try_from(key).map_err(
        |_| CryptoError::KeyError,
    )?;
    let nonce = aes_gcm::Nonce::<aes_gcm::aead::consts::U12>::try_from(nonce).map_err(
        |_| CryptoError::NonceError,
    )?;
    let cipher = aes_gcm::Aes128Gcm::new(&key);
    cipher.decrypt(&nonce, Payload { msg: ct, aad }).map_err(|_| CryptoError::DecryptionError)
}

/// Relies on ascon_aead128::AsconAead128 through aead::Aead::encrypt: a
/// deterministic function of key, nonce, associated data and plaintext;
/// the result is the ciphertext with the 16-byte tag appended; the call
/// refuses only plaintext and associated data whose lengths together
/// overflow a 64-bit count.
#[verifier::external_body]
fn ascon_encrypt_raw(key: &[u8], nonce: &[u8], aad: &[u8], pt: &[u8]) -> (r: Result<
    Vec<u8>,
    CryptoError,
>)
    requires
        key@.len() == 16,
        nonce@.len() == 16,
    ensures
        r matches Ok(c) ==> c@ == ascon_seal(key@, nonce@, aad@, pt@) && c@.len() == pt@.len() + 16,
        pt@.len() + aad@.len() <= u64::MAX ==> r is Ok,
        r matches Err(e) ==> e == CryptoError::EncryptionError,
{
    let key = ascon_aead128::AsconAead128Key::try_from(key).map_err(|_| CryptoError::KeyError)?;
    let nonce = ascon_aead128::AsconAead128Nonce::try_from(nonce).map_err(
        |_| CryptoError::NonceError,
    )?;
    let cipher = ascon_aead128::AsconAead128::new(&key);
    cipher.encrypt(&nonce, Payload { msg: pt, aad }).map_err(|_| CryptoError::EncryptionError)
}

/// Relies on ascon_aead128::AsconAead128 through aead::Aead::decrypt:
/// succeeds with the sealed plaintext exactly on what sealing under the
/// same key, nonce and associated data produces, and refuses everything
/// else.
#[verifier::external_body]
fn ascon_decrypt_raw(key: &[u8], nonce: &[u8], aad: &[u8], ct: &[u8]) -> (r: Result<
    Vec<u8>,
    CryptoError,
>)
    requires
        key@.len() == 16,
        nonce@.len() == 16,
    ensures
        r matches Ok(p) ==> ct@ == ascon_seal(key@, nonce@, aad@, p@),
        r matches Ok(q) ==> forall|p: Seq<u8>|
            ct@ == ascon_seal(key@, nonce@, aad@, p) ==> p == q@,
        !(r is Ok) ==> forall|p: Seq<u8>|
            p.len() + aad@.len() <= u64::MAX ==> ct@ != ascon_seal(key@, nonce@, aad@, p),
        r matches Err(e) ==> e == CryptoError::DecryptionError,
{
    let key = ascon_aead128::AsconAead128Key::try_from(key).map_err(|_| CryptoError::KeyError)?;
    let nonce = ascon_aead128::AsconAead128Nonce::try_from(nonce).map_err(
        |_| CryptoError::NonceError,
    )?;
    let cipher = ascon_aead128::AsconAead128::new(&key);
    cipher.decrypt(&nonce, Payload { msg: ct, aad }).map_err(|_| CryptoError::DecryptionError)
}

/// Relies on getrandom::fill: fills the buffer in place from the system's
/// random source; nothing is promised of the values.
#[verifier::external_body]
pub(crate) fn fill_random(buf: &mut Vec<u8>) -> (ok: bool)
    ensures
        final(buf)@.len() == old(buf)@.len(),
{
    getrandom::fill(buf.as_mut_slice()).is_ok()
}

/// Relies on zeroize::Zeroize for Vec<u8>: overwrites the contents and the
/// spare capacity with zeros, then clears the vector.
#[verifier::external_body]
pub(crate) fn wipe_bytes(buf: &mut Vec<u8>)
    ensures
        final(buf)@.len() == 0,
{
    zeroize::Zeroize::zeroize(buf);
}

/// AES-GCM-128, selected by algorithm tag 1 on the wire.
pub struct CryptoAes128Gcm;

impl CryptoAes128Gcm {
    /// The identifier of this algorithm.
    pub fn alg_id(&self) -> (r: CryptoAlgorithm)
        ensures
            r == CryptoAlgorithm::AesGcm128,
    {
        CryptoAlgorithm::AesGcm128
    }

    /// Expected nonce length.
    pub fn nonce_len(&self) -> (r: usize)
        ensures
            r == spec_nonce_len(CryptoAlgorithm::AesGcm128),
    {
        12
    }

    /// Length of the authentication tag.
    pub fn tag_len(&self) -> (r: usize)
        ensures
            r == spec_tag_len(CryptoAlgorithm::AesGcm128),
    {
        16
    }

    /// Seal `plaintext` under `key` and `nonce`, binding `aad`.
    pub fn encrypt(&self, key: &[u8], nonce: &[u8], aad: &[u8], plaintext: &[u8]) -> (r: Result<
        Vec<u8>,
        CryptoError,
    >)
        ensures
            key@.len() != 16 ==> r == Err::<Vec<u8>, CryptoError>(CryptoError::KeyError),
            key@.len() == 16 && nonce@.len() != 12 ==> r == Err::<Vec<u8>, CryptoError>(
                CryptoError::NonceError,
            ),
            r matches Ok(c) ==> key@.len() == 16 && nonce@.len() == 12 && c@ == aes_gcm_seal(
                key@,
                nonce@,
                aad@,
                plaintext@,
            ) && c@.len() == plaintext@.len() + 16,
            key@.len() == 16 && nonce@.len() == 12 && !(r is Ok) ==> r == Err::<
                Vec<u8>,
                CryptoError,
            >(CryptoError::EncryptionError),
            key@.len() == 16 && nonce@.len() == 12 && plaintext@.len() <= 0xF_FFFF_FFE0
                && aad@.len() <= 0x1FFF_FFFF_FFFF_FFFF ==> r is Ok,
    {
        if key.len() != 16 {
            return Err(CryptoError::KeyError);
        }
        if nonce.len() != 12 {
            return Err(CryptoError::NonceError);
        }
        aes_gcm_encrypt_raw(key, nonce, aad, plaintext)
    }

    /// Open `ciphertext` under `key` and `nonce`, checking `aad`.
    pub fn decrypt(&self, key: &[u8], nonce: &[u8], aad: &[u8], ciphertext: &[u8]) -> (r: Result<
        Vec<u8>,
        CryptoError,
    >)
        ensures
            key@.len() != 16 ==> r == Err::<Vec<u8>, CryptoError>(CryptoError::KeyError),
            key@.len() == 16 && nonce@.len() != 12 ==> r == Err::<Vec<u8>, CryptoError>(
                CryptoError::NonceError,
            ),
            r matches Ok(p) ==> key@.len() == 16 && nonce@.len() == 12 && ciphertext@
                == aes_gcm_seal(key@, nonce@, aad@, p@),
            r matches Ok(q) ==> forall|p: Seq<u8>|
                ciphertext@ == aes_gcm_seal(key@, nonce@, aad@, p) ==> p == q@,
            key@.len() == 16 && nonce@.len() == 12 && !(r is Ok) ==> forall|p: Seq<u8>|
                p.len() <= 0xF_FFFF_FFE0 && aad@.len() <= 0x1FFF_FFFF_FFFF_FFFF ==> ciphertext@
                    != aes_gcm_seal(key@, nonce@, aad@, p),
            key@.len() == 16 && nonce@.len() == 12 && !(r is Ok) ==> r == Err::<
                Vec<u8>,
                CryptoError,
            >(CryptoError::DecryptionError),
    {
        if key.len() != 16 {
            return Err(CryptoError::KeyError);
        }
        if nonce.len() != 12 {
            return Err(CryptoError::NonceError);
        }
        aes_gcm_decrypt_raw(key, nonce, aad, ciphertext)
    }
}

/// Ascon-AEAD128, selected by algorithm tag 35 on the wire.
pub struct CryptoAsconAead128;

impl CryptoAsconAead128 {
    /// The identifier of this algorithm.
    pub fn alg_id(&self) -> (r: CryptoAlgorithm)
        ensures
            r == CryptoAlgorithm::AsconAead128,
    {
        CryptoAlgorithm::AsconAead128
    }

    /// Expected nonce length.
    pub fn nonce_len(&self) -> (r: usize)
        ensures
            r == spec_nonce_len(CryptoAlgorithm::AsconAead128),
    {
        16
    }

    /// Length of the authentication tag.
    pub fn tag_len(&self) -> (r: usize)
        ensures
            r == spec_tag_len(CryptoAlgorithm::AsconAead128),
    {
        16
    }

    /// Seal `plaintext` under `key` and `nonce`, binding `aad`.
    pub fn encrypt(&self, key: &[u8], nonce: &[u8], aad: &[u8], plaintext: &[u8]) -> (r: Result<
        Vec<u8>,
        CryptoError,
    >)
        ensures
            key@.len() != 16 ==> r == Err::<Vec<u8>, CryptoError>(CryptoError::KeyError),
            key@.len() == 16 && nonce@.len() != 16 ==> r == Err::<Vec<u8>, CryptoError>(
                CryptoError::NonceError,
            ),
            r matches Ok(c) ==> key@.len() == 16 && nonce@.len() == 16 && c@ == ascon_seal(
                key@,
                nonce@,
                aad@,
                plaintext@,
            ) && c@.len() == plaintext@.len() + 16,
            key@.len() == 16 && nonce@.len() == 16 && !(r is Ok) ==> r == Err::<
                Vec<u8>,
                CryptoError,
            >(CryptoError::EncryptionError),
            key@.len() == 16 && nonce@.len() == 16 && plaintext@.len() + aad@.len() <= u64::MAX
                ==> r is Ok,
    {
        if key.len() != 16 {
            return Err(CryptoError::KeyError);
        }
        if nonce.len() != 16 {
            return Err(CryptoError::NonceError);
        }
        ascon_encrypt_raw(key, nonce, aad, plaintext)
    }

    /// Open `ciphertext` under `key` and `nonce`, checking `aad`.
    pub fn decrypt(&self, key: &[u8], nonce: &[u8], aad: &[u8], ciphertext: &[u8]) -> (r: Result<
        Vec<u8>,
        CryptoError,
    >)
        ensures
            key@.len() != 16 ==> r == Err::<Vec<u8>, CryptoError>(CryptoError::KeyError),
            key@.len() == 16 && nonce@.len() != 16 ==> r == Err::<Vec<u8>, CryptoError>(
                CryptoError::NonceError,
            ),
            r matches Ok(p) ==> key@.len() == 16 && nonce@.len() == 16 && ciphertext@ == ascon_seal(
                key@,
                nonce@,
                aad@,
                p@,
            ),
            r matches Ok(q) ==> forall|p: Seq<u8>|
                ciphertext@ == ascon_seal(key@, nonce@, aad@, p) ==> p == q@,
            key@.len() == 16 && nonce@.len() == 16 && !(r is Ok) ==> forall|p: Seq<u8>|
                p.len() + aad@.len() <= u64::MAX ==> ciphertext@ != ascon_seal(
                    key@,
                    nonce@,
                    aad@,
                    p,
                ),
            key@.len() == 16 && nonce@.len() == 16 && !(r is Ok) ==> r == Err::<
                Vec<u8>,
                CryptoError,
            >(CryptoError::DecryptionError),
    {
        if key.len() != 16 {
            return Err(CryptoError::KeyError);
        }
        if nonce.len() != 16 {
            return Err(CryptoError::NonceError);
        }
        ascon_decrypt_raw(key, nonce, aad, ciphertext)
    }
}

/// Seal under whichever algorithm `alg` names; the key and nonce lengths
/// must already match the algorithm.
pub fn aead_encrypt(
    alg: CryptoAlgorithm,
    key: &[u8],
    nonce: &[u8],
    aad: &[u8],
    plaintext: &[u8],
) -> (r: Result<Vec<u8>, CryptoError>)
    requires
        key@.len() == spec_key_len(alg),
        nonce@.len() == spec_nonce_len(alg),
    ensures
        r matches Ok(c) ==> c@ == seal(alg, key@, nonce@, aad@, plaintext@) && c@.len()
            == plaintext@.len() + 16,
        plaintext@.len() <= 0xFFFF_FFFF && aad@.len() <= 0xFFFF_FFFF ==> r is Ok,
{
    match alg {
        CryptoAlgorithm::AesGcm128 => CryptoAes128Gcm.encrypt(key, nonce, aad, plaintext),
        CryptoAlgorithm::AsconAead128 => CryptoAsconAead128.encrypt(key, nonce, aad, plaintext),
    }
}

/// Open under whichever algorithm `alg` names; the key and nonce lengths
/// must already match the algorithm.
pub fn aead_decrypt(
    alg: CryptoAlgorithm,
    key: &[u8],
    nonce: &[u8],
    aad: &[u8],
    ciphertext: &[u8],
) -> (r: Result<Vec<u8>, CryptoError>)
    requires
        key@.len() == spec_key_len(alg),
        nonce@.len() == spec_nonce_len(alg),
    ensures
        r matches Ok(p) ==> ciphertext@ == seal(alg, key@, nonce@, aad@, p@),
        r matches Ok(q) ==> forall|p: Seq<u8>|
            ciphertext@ == seal(alg, key@, nonce@, aad@, p) ==> p == q@,
        !(r is Ok) ==> forall|p: Seq<u8>|
            p.len() <= 0xFFFF_FFFF && aad@.len() <= 0xFFFF_FFFF ==> ciphertext@ != seal(
                alg,
                key@,
                nonce@,
                aad@,
                p,
            ),
{
    match alg {
        CryptoAlgorithm::AesGcm128 => CryptoAes128Gcm.decrypt(key, nonce, aad, ciphertext),
        CryptoAlgorithm::AsconAead128 => CryptoAsconAead128.decrypt(key, nonce, aad, ciphertext),
    }
}

/// Key length in bytes of `alg`.
pub fn key_len_of(alg: CryptoAlgorithm) -> (r: usize)
    ensures
        r == spec_key_len(alg),
{
    match alg {
        CryptoAlgorithm::AesGcm128 => 16,
        CryptoAlgorithm::AsconAead128 => 16,
    }
}

/// Nonce length in bytes of `alg`.
pub fn nonce_len_of(alg: CryptoAlgorithm) -> (r: usize)
    ensures
        r == spec_nonce_len(alg),
{
    match alg {
        CryptoAlgorithm::AesGcm128 => 12,
        CryptoAlgorithm::AsconAead128 => 16,
    }
}

/// Tag length in bytes of `alg`.
pub fn tag_len_of(alg: CryptoAlgorithm) -> (r: usize)
    ensures
        r == spec_tag_len(alg),
{
    match alg {
        CryptoAlgorithm::AesGcm128 => 16,
        CryptoAlgorithm::AsconAead128 => 16,
    }
}

} // verus!
