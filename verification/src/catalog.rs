//! The logical catalog the protocol plane runs against: devices, firmware
//! rows with their on-disk blobs, and per-device keys with their strict
//! lifecycle (at most one ACTIVE and one NEXT key per device).

use crate::cose::{KeyProviderError, KeyType as WireKeyType};
use crate::crypto::CryptoAlgorithm;
use vstd::prelude::*;
use vstd::string::StrSliceExecFns;

verus! {

/// Operational status of a device.
#[derive(Clone, Copy, PartialEq, Eq, Structural, Debug)]
pub enum DeviceStatus {
    Active,
    Inactive,
    Maintenance,
}

impl DeviceStatus {
    /// The status byte carried on the wire.
    pub open spec fn spec_code(self) -> u8 {
        match self {
            DeviceStatus::Active => 0,
            DeviceStatus::Inactive => 1,
            DeviceStatus::Maintenance => 2,
        }
    }

    /// The status byte carried on the wire.
    pub fn code(self) -> (r: u8)
        ensures
            r == self.spec_code(),
    {
        match self {
            DeviceStatus::Active => 0,
            DeviceStatus::Inactive => 1,
            DeviceStatus::Maintenance => 2,
        }
    }

    /// Read a status byte: only 0, 1 and 2 stand for a status.
    pub fn from_code(code: u8) -> (r: Option<DeviceStatus>)
        ensures
            match r {
                Some(s) => s.spec_code() == code,
                None => code > 2,
            },
    {
        if code == 0 {
            Some(DeviceStatus::Active)
        } else if code == 1 {
            Some(DeviceStatus::Inactive)
        } else if code == 2 {
            Some(DeviceStatus::Maintenance)
        } else {
            None
        }
    }
}

/// Lifecycle status of a device key.
#[derive(Clone, Copy, PartialEq, Eq, Structural, Debug)]
pub enum KeyStatus {
    Active,
    Next,
    Expired,
}

/// The kind of key a row holds.
#[derive(Clone, Copy, PartialEq, Eq, Structural, Debug)]
pub enum KeyType {
    Lightweight,
    Tls,
}

/// A device row.
pub struct Device {
    pub id: u32,
    pub name: String,
    pub type_: u32,
    pub firmware: Option<u32>,
    pub desired_firmware: u32,
    pub status: DeviceStatus,
}

/// A device-type row.
pub struct DeviceType {
    pub id: u32,
    pub name: String,
}

/// A firmware row; `sha256` holds the digest as lowercase hex in ASCII,
/// and the blob with the same `file_id` holds the bytes themselves.
pub struct Firmware {
    pub id: u32,
    pub name: String,
    pub version: String,
    pub file_id: String,
    pub size: i64,
    pub sha256: Vec<u8>,
}

/// A device-key row.
pub struct DeviceKey {
    pub id: u32,
    pub device: u32,
    pub key_type: KeyType,
    pub status: KeyStatus,
}

/// The key material of a LIGHTWEIGHT device key.
pub struct LightweightKeyDetails {
    pub id: u32,
    pub device_key: u32,
    pub algorithm: CryptoAlgorithm,
    pub key: Vec<u8>,
}

/// A stored firmware image, named by its row's `file_id`.
pub struct FirmwareBlob {
    pub file_id: String,
    pub data: Vec<u8>,
}

/// The algorithm a wire key type asks for.
pub open spec fn spec_requested_alg(kt: WireKeyType) -> CryptoAlgorithm {
    match kt {
        WireKeyType::AesGcm128 => CryptoAlgorithm::AesGcm128,
        WireKeyType::AsconAead128 => CryptoAlgorithm::AsconAead128,
    }
}

/// The whole catalog with the blob store.
pub struct Catalog {
    pub device_types: Vec<DeviceType>,
    pub devices: Vec<Device>,
    pub firmwares: Vec<Firmware>,
    pub keys: Vec<DeviceKey>,
    pub key_details: Vec<LightweightKeyDetails>,
    pub blobs: Vec<FirmwareBlob>,
    pub next_key_id: u32,
}

/// A device with this id exists.
pub open spec fn has_device(devices: Seq<Device>, id: u32) -> bool {
    exists|i: int| 0 <= i < devices.len() && devices[i].id == id
}

/// A device type with this id exists.
pub open spec fn has_device_type(types: Seq<DeviceType>, id: u32) -> bool {
    exists|i: int| 0 <= i < types.len() && types[i].id == id
}

/// A firmware row with this id exists.
pub open spec fn has_firmware(firmwares: Seq<Firmware>, id: u32) -> bool {
    exists|i: int| 0 <= i < firmwares.len() && firmwares[i].id == id
}

/// The device has a key row with this status.
pub open spec fn has_key_with_status(keys: Seq<DeviceKey>, device: u32, status: KeyStatus) -> bool {
    exists|i: int| 0 <= i < keys.len() && keys[i].device == device && keys[i].status == status
}

/// The catalog's invariant: unique identifiers, sound references, at most
/// one ACTIVE and at most one NEXT key per device, one details row per
/// LIGHTWEIGHT key with the algorithm's key length, and the blob store
/// aligned with the firmware rows: the blob at an index belongs to the
/// firmware row at the same index and holds exactly its size in bytes, so
/// an image exists exactly for the rows that reach it.
#[verifier::opaque]
pub open spec fn catalog_wf(c: Catalog) -> bool {
    let types = c.device_types@;
    let devices = c.devices@;
    let firmwares = c.firmwares@;
    let keys = c.keys@;
    let details = c.key_details@;
    let blobs = c.blobs@;
    &&& (forall|i: int, j: int|
        #![trigger types[i], types[j]]
        0 <= i < j < types.len() ==> types[i].id != types[j].id)
    &&& (forall|i: int, j: int|
        #![trigger devices[i], devices[j]]
        0 <= i < j < devices.len() ==> devices[i].id != devices[j].id)
    &&& (forall|i: int, j: int|
        #![trigger firmwares[i], firmwares[j]]
        0 <= i < j < firmwares.len() ==> firmwares[i].id != firmwares[j].id)
    &&& (forall|i: int, j: int|
        #![trigger firmwares[i], firmwares[j]]
        0 <= i < j < firmwares.len() ==> !(firmwares[i].name@ == firmwares[j].name@
            && firmwares[i].version@ == firmwares[j].version@))
    &&& (forall|i: int, j: int|
        #![trigger firmwares[i], firmwares[j]]
        0 <= i < j < firmwares.len() ==> firmwares[i].file_id@ != firmwares[j].file_id@)
    &&& (forall|i: int, j: int|
        #![trigger keys[i], keys[j]]
        0 <= i < j < keys.len() ==> keys[i].id != keys[j].id)
    &&& (forall|i: int| 0 <= i < keys.len() ==> keys[i].id < c.next_key_id)
    &&& (forall|i: int| 0 <= i < keys.len() ==> has_device(devices, keys[i].device))
    &&& (forall|i: int, j: int|
        #![trigger keys[i], keys[j]]
        0 <= i < keys.len() && 0 <= j < keys.len() && i != j && keys[i].device == keys[j].device
            ==> !(keys[i].status == KeyStatus::Active && keys[j].status == KeyStatus::Active))
    &&& (forall|i: int, j: int|
        #![trigger keys[i], keys[j]]
        0 <= i < keys.len() && 0 <= j < keys.len() && i != j && keys[i].device == keys[j].device
            ==> !(keys[i].status == KeyStatus::Next && keys[j].status == KeyStatus::Next))
    &&& (forall|i: int, j: int|
        #![trigger details[i], details[j]]
        0 <= i < j < details.len() ==> details[i].device_key != details[j].device_key)
    &&& (forall|i: int|
        #![trigger keys[i]]
        0 <= i < keys.len() && keys[i].key_type == KeyType::Lightweight ==> exists|j: int|
            #![trigger details[j]]
            0 <= j < details.len() && details[j].device_key == keys[i].id)
    &&& (forall|i: int| #![trigger details[i]] 0 <= i < details.len() ==> details[i].key@.len() == 16)
    &&& (forall|i: int|
        #![trigger details[i]]
        0 <= i < details.len() ==> details[i].device_key < c.next_key_id)
    &&& (forall|i: int|
        0 <= i < devices.len() ==> has_firmware(firmwares, devices[i].desired_firmware))
    &&& (forall|i: int|
        #![trigger devices[i]]
        0 <= i < devices.len() ==> match devices[i].firmware {
            Some(f) => has_firmware(firmwares, f),
            None => true,
        })
    &&& (forall|i: int| 0 <= i < devices.len() ==> has_device_type(types, devices[i].type_))
    &&& (forall|i: int| 0 <= i < firmwares.len() ==> firmwares[i].size >= 0)
    &&& blobs.len() == firmwares.len()
    &&& (forall|i: int|
        #![trigger blobs[i]]
        0 <= i < firmwares.len() ==> blobs[i].file_id@ == firmwares[i].file_id@
            && blobs[i].data@.len() == firmwares[i].size)
}

impl Catalog {
    /// An empty catalog.
    pub fn new() -> (r: Catalog)
        ensures
            catalog_wf(r),
            r.device_types@.len() == 0,
            r.devices@.len() == 0,
            r.firmwares@.len() == 0,
            r.keys@.len() == 0,
            r.key_details@.len() == 0,
            r.blobs@.len() == 0,
            r.next_key_id == 1,
    {
        proof {
            reveal(catalog_wf);
        }
        Catalog {
            device_types: Vec::new(),
            devices: Vec::new(),
            firmwares: Vec::new(),
            keys: Vec::new(),
            key_details: Vec::new(),
            blobs: Vec::new(),
            next_key_id: 1,
        }
    }

    /// Well-formedness of this catalog.
    pub open spec fn wf(self) -> bool {
        catalog_wf(self)
    }

    /// The index of the device row with this id.
    pub fn find_device(&self, id: u32) -> (r: Option<usize>)
        ensures
            match r {
                Some(i) => i < self.devices@.len() && self.devices@[i as int].id == id,
                None => !has_device(self.devices@, id),
            },
    {
        let mut i: usize = 0;
        while i < self.devices.len()
            invariant
                i <= self.devices@.len(),
                forall|j: int| 0 <= j < i ==> self.devices@[j].id != id,
            decreases self.devices@.len() - i,
        {
            if self.devices[i].id == id {
                return Some(i);
            }
            i = i + 1;
        }
        None
    }

    /// The index of the firmware row with this id.
    pub fn find_firmware(&self, id: u32) -> (r: Option<usize>)
        ensures
            match r {
                Some(i) => i < self.firmwares@.len() && self.firmwares@[i as int].id == id,
                None => !has_firmware(self.firmwares@, id),
            },
    {
        let mut i: usize = 0;
        while i < self.firmwares.len()
            invariant
                i <= self.firmwares@.len(),
                forall|j: int| 0 <= j < i ==> self.firmwares@[j].id != id,
            decreases self.firmwares@.len() - i,
        {
            if self.firmwares[i].id == id {
                return Some(i);
            }
            i = i + 1;
        }
        None
    }

    /// The index of the blob with this file id.
    pub fn find_blob(&self, file_id: &String) -> (r: Option<usize>)
        ensures
            match r {
                Some(i) => i < self.blobs@.len() && self.blobs@[i as int].file_id@ == file_id@,
                None => forall|j: int| 0 <= j < self.blobs@.len() ==> self.blobs@[j].file_id@
                    != file_id@,
            },
    {
        let mut i: usize = 0;
        while i < self.blobs.len()
            invariant
                i <= self.blobs@.len(),
                forall|j: int| 0 <= j < i ==> self.blobs@[j].file_id@ != file_id@,
            decreases self.blobs@.len() - i,
        {
            if self.blobs[i].file_id.eq(file_id) {
                return Some(i);
            }
            i = i + 1;
        }
        None
    }

    /// The index of the key row with this status for this device.
    pub fn find_key_with_status(&self, device: u32, status: KeyStatus) -> (r: Option<usize>)
        ensures
            match r {
                Some(i) => i < self.keys@.len() && self.keys@[i as int].device == device
                    && self.keys@[i as int].status == status,
                None => !has_key_with_status(self.keys@, device, status),
            },
    {
        let mut i: usize = 0;
        while i < self.keys.len()
            invariant
                i <= self.keys@.len(),
                forall|j: int|
                    0 <= j < i ==> !(self.keys@[j].device == device && self.keys@[j].status
                        == status),
            decreases self.keys@.len() - i,
        {
            if self.keys[i].device == device && self.keys[i].status == status {
                return Some(i);
            }
            i = i + 1;
        }
        None
    }

    /// The index of the details row of the key with this row id.
    pub fn find_key_details(&self, device_key: u32) -> (r: Option<usize>)
        ensures
            match r {
                Some(i) => i < self.key_details@.len() && self.key_details@[i as int].device_key
                    == device_key,
                None => forall|j: int|
                    0 <= j < self.key_details@.len() ==> self.key_details@[j].device_key
                        != device_key,
            },
    {
        let mut i: usize = 0;
        while i < self.key_details.len()
            invariant
                i <= self.key_details@.len(),
                forall|j: int| 0 <= j < i ==> self.key_details@[j].device_key != device_key,
            decreases self.key_details@.len() - i,
        {
            if self.key_details[i].device_key == device_key {
                return Some(i);
            }
            i = i + 1;
        }
        None
    }
}

/// What resolving a key for `(device_id, requested)` yields: the ACTIVE
/// key row's material, provided the row is LIGHTWEIGHT and its algorithm
/// matches the request.
#[verifier::opaque]
pub open spec fn spec_key_for_device(c: Catalog, device_id: u32, requested: WireKeyType) -> Result<
    Seq<u8>,
    KeyProviderError,
> {
    if !has_key_with_status(c.keys@, device_id, KeyStatus::Active) {
        Err(KeyProviderError::KeyNotFound)
    } else {
        let i = choose|i: int|
            0 <= i < c.keys@.len() && c.keys@[i].device == device_id && c.keys@[i].status
                == KeyStatus::Active;
        let k = c.keys@[i];
        if k.key_type != KeyType::Lightweight {
            Err(KeyProviderError::KeyMismatch)
        } else if !(exists|j: int|
            0 <= j < c.key_details@.len() && c.key_details@[j].device_key == k.id) {
            Err(KeyProviderError::DbError)
        } else {
            let j = choose|j: int|
                0 <= j < c.key_details@.len() && c.key_details@[j].device_key == k.id;
            let d = c.key_details@[j];
            if d.algorithm != spec_requested_alg(requested) {
                Err(KeyProviderError::KeyMismatch)
            } else {
                Ok(d.key@)
            }
        }
    }
}

/// Under the invariant, any row that is ACTIVE for the device is the one
/// the resolution speaks of, so resolution is determined row by row.
#[verifier::rlimit(30)]
#[verifier::spinoff_prover]
proof fn lemma_active_key_is_chosen(c: Catalog, device_id: u32, ki: int)
    requires
        catalog_wf(c),
        0 <= ki < c.keys@.len(),
        c.keys@[ki].device == device_id,
        c.keys@[ki].status == KeyStatus::Active,
    ensures
        has_key_with_status(c.keys@, device_id, KeyStatus::Active),
        (choose|i: int|
            0 <= i < c.keys@.len() && c.keys@[i].device == device_id && c.keys@[i].status
                == KeyStatus::Active) == ki,
{
    reveal(catalog_wf);
    assert(has_key_with_status(c.keys@, device_id, KeyStatus::Active)) by {
        assert(0 <= ki < c.keys@.len() && c.keys@[ki].device == device_id && c.keys@[ki].status
            == KeyStatus::Active);
    }
    let i = choose|i: int|
        0 <= i < c.keys@.len() && c.keys@[i].device == device_id && c.keys@[i].status
            == KeyStatus::Active;
    if i != ki {
        assert(!(c.keys@[i].status == KeyStatus::Active && c.keys@[ki].status
            == KeyStatus::Active));
        assert(false);
    }
}

/// Under the invariant, a key row has at most one details row, so the one
/// found is the one the resolution speaks of.
#[verifier::rlimit(30)]
#[verifier::spinoff_prover]
proof fn lemma_details_is_chosen(c: Catalog, key_id: u32, di: int)
    requires
        catalog_wf(c),
        0 <= di < c.key_details@.len(),
        c.key_details@[di].device_key == key_id,
    ensures
        exists|j: int| 0 <= j < c.key_details@.len() && c.key_details@[j].device_key == key_id,
        (choose|j: int|
            0 <= j < c.key_details@.len() && c.key_details@[j].device_key == key_id) == di,
{
    reveal(catalog_wf);
    assert(exists|j: int|
        0 <= j < c.key_details@.len() && c.key_details@[j].device_key == key_id) by {
        assert(0 <= di < c.key_details@.len() && c.key_details@[di].device_key == key_id);
    }
    let j = choose|j: int|
        0 <= j < c.key_details@.len() && c.key_details@[j].device_key == key_id;
    if j != di {
        assert(c.key_details@[j].device_key != c.key_details@[di].device_key);
        assert(false);
    }
}

impl Catalog {
    /// Resolve the key material for a request, as `spec_key_for_device`
    /// describes: the device's ACTIVE key, which must be LIGHTWEIGHT and
    /// of the requested algorithm.  The caller owns the copy and must
    /// wipe it when the request is done.
    #[verifier::rlimit(30)]
    #[verifier::spinoff_prover]
    pub fn key_for_device(&self, device_id: u32, key_type: WireKeyType) -> (r: Result<
        Vec<u8>,
        KeyProviderError,
    >)
        requires
            self.wf(),
        ensures
            match r {
                Ok(k) => spec_key_for_device(*self, device_id, key_type) matches Ok(s) && k@ == s
                    && k@.len() == 16,
                Err(e) => spec_key_for_device(*self, device_id, key_type) == Err::<
                    Seq<u8>,
                    KeyProviderError,
                >(e),
            },
    {
        proof {
            reveal(catalog_wf);
            reveal(spec_key_for_device);
        }
        let ki = match self.find_key_with_status(device_id, KeyStatus::Active) {
            Some(i) => i,
            None => {
                return Err(KeyProviderError::KeyNotFound);
            },
        };
        proof {
            lemma_active_key_is_chosen(*self, device_id, ki as int);
        }
        let krow_id = self.keys[ki].id;
        let is_lightweight = match self.keys[ki].key_type {
            KeyType::Lightweight => true,
            KeyType::Tls => false,
        };
        if !is_lightweight {
            return Err(KeyProviderError::KeyMismatch);
        }
        let di = match self.find_key_details(krow_id) {
            Some(j) => j,
            None => {
                proof {
                    assert(exists|j: int|
                        0 <= j < self.key_details@.len() && self.key_details@[j].device_key
                            == krow_id);
                    assert(false);
                }
                return Err(KeyProviderError::DbError);
            },
        };
        proof {
            lemma_details_is_chosen(*self, krow_id, di as int);
        }
        let requested = match key_type {
            WireKeyType::AesGcm128 => CryptoAlgorithm::AesGcm128,
            WireKeyType::AsconAead128 => CryptoAlgorithm::AsconAead128,
        };
        if self.key_details[di].algorithm != requested {
            return Err(KeyProviderError::KeyMismatch);
        }
        Ok(vstd::slice::slice_to_vec(self.key_details[di].key.as_slice()))
    }
}

/// Why a key-lifecycle request was refused.
#[derive(Clone, Copy, PartialEq, Eq, Structural, Debug)]
pub enum KeyLifecycleError {
    InvalidKeyLength,
    Conflict,
    NotFound,
    TlsUnsupported,
}

/// Why an admin-plane catalog request was refused.
#[derive(Clone, Copy, PartialEq, Eq, Structural, Debug)]
pub enum AdminError {
    BadRequest,
    Conflict,
    NotFound,
    Internal,
}

/// The two hex characters of a nibble, lowercase, in ASCII.
pub open spec fn spec_hex_digit(n: u8) -> u8 {
    if n < 10 {
        (0x30 + n) as u8
    } else {
        (0x57 + n) as u8
    }
}

/// The bytes of a byte string written as lowercase hex in ASCII.
pub open spec fn spec_hex_lower(s: Seq<u8>) -> Seq<u8>
    decreases s.len(),
{
    if s.len() == 0 {
        Seq::empty()
    } else {
        spec_hex_lower(s.drop_last()) + seq![
            spec_hex_digit(s.last() / 16),
            spec_hex_digit(s.last() % 16),
        ]
    }
}

/// A byte's two nibbles are below 16.
proof fn lemma_nibble_bound(b: u8)
    ensures
        b / 16 < 16,
        b % 16 < 16,
{
    assert(b / 16 < 16 && b % 16 < 16) by (bit_vector);
}

/// Write a byte string as lowercase hex in ASCII.
pub fn hex_lower(data: &[u8]) -> (r: Vec<u8>)
    requires
        data@.len() <= 0x4000_0000,
    ensures
        r@ == spec_hex_lower(data@),
        r@.len() == 2 * data@.len(),
{
    let mut out: Vec<u8> = Vec::new();
    let mut i: usize = 0;
    proof {
        assert(data@.subrange(0, 0) =~= Seq::<u8>::empty());
    }
    while i < data.len()
        invariant
            i <= data@.len(),
            data@.len() <= 0x4000_0000,
            out@ == spec_hex_lower(data@.subrange(0, i as int)),
            out@.len() == 2 * i,
        decreases data@.len() - i,
    {
        let b = data[i];
        proof {
            lemma_nibble_bound(b);
        }
        let hi = if b / 16 < 10 {
            0x30 + b / 16
        } else {
            0x57 + b / 16
        };
        let lo = if b % 16 < 10 {
            0x30 + b % 16
        } else {
            0x57 + b % 16
        };
        out.push(hi);
        out.push(lo);
        proof {
            let prefix = data@.subrange(0, i as int);
            let prefix1 = data@.subrange(0, i + 1);
            assert(prefix1.drop_last() =~= prefix);
            assert(prefix1.last() == data@[i as int]);
            assert(out@ =~= spec_hex_lower(prefix1));
        }
        i = i + 1;
    }
    proof {
        assert(data@.subrange(0, data@.len() as int) =~= data@);
    }
    out
}

/// What the SHA-256 digest of a byte string is: 32 bytes, a function of
/// the input alone.
pub uninterp spec fn sha256_of(data: Seq<u8>) -> Seq<u8>;

/// Relies on sha2::Sha256 through digest::Digest: the digest is 32 bytes
/// and depends on the input bytes alone.
#[verifier::external_body]
fn sha256_digest(data: &[u8]) -> (r: Vec<u8>)
    ensures
        r@ == sha256_of(data@),
        r@.len() == 32,
{
    let mut h = <sha2::Sha256 as sha2::Digest>::new();
    sha2::Digest::update(&mut h, data);
    sha2::Digest::finalize(h).to_vec()
}

/// Relies on uuid::Uuid::new_v4 and its hyphenated display form: a fresh
/// random identifier of 36 characters; nothing is promised of its value.
#[verifier::external_body]
fn new_file_id() -> (r: String)
    ensures
        r@.len() == 36,
{
    uuid::Uuid::new_v4().to_string()
}

impl Catalog {
    /// The index of the device-type row with this id.
    pub fn find_device_type(&self, id: u32) -> (r: Option<usize>)
        ensures
            match r {
                Some(i) => i < self.device_types@.len() && self.device_types@[i as int].id == id,
                None => !has_device_type(self.device_types@, id),
            },
    {
        let mut i: usize = 0;
        while i < self.device_types.len()
            invariant
                i <= self.device_types@.len(),
                forall|j: int| 0 <= j < i ==> self.device_types@[j].id != id,
            decreases self.device_types@.len() - i,
        {
            if self.device_types[i].id == id {
                return Some(i);
            }
            i = i + 1;
        }
        None
    }

    /// A firmware row with this name and version exists.
    fn has_name_version(&self, name: &String, version: &String) -> (r: bool)
        ensures
            r == exists|i: int|
                0 <= i < self.firmwares@.len() && self.firmwares@[i].name@ == name@
                    && self.firmwares@[i].version@ == version@,
    {
        let mut i: usize = 0;
        while i < self.firmwares.len()
            invariant
                i <= self.firmwares@.len(),
                forall|j: int|
                    0 <= j < i ==> !(self.firmwares@[j].name@ == name@ && self.firmwares@[j].version@
                        == version@),
            decreases self.firmwares@.len() - i,
        {
            if self.firmwares[i].name.eq(name) && self.firmwares[i].version.eq(version) {
                proof {
                    assert(0 <= i < self.firmwares@.len() && self.firmwares@[i as int].name@
                        == name@ && self.firmwares@[i as int].version@ == version@);
                }
                return true;
            }
            i = i + 1;
        }
        false
    }

    /// A firmware row with this file id exists.
    fn has_file_id(&self, file_id: &String) -> (r: bool)
        ensures
            r == exists|i: int|
                0 <= i < self.firmwares@.len() && self.firmwares@[i].file_id@ == file_id@,
    {
        let mut i: usize = 0;
        while i < self.firmwares.len()
            invariant
                i <= self.firmwares@.len(),
                forall|j: int| 0 <= j < i ==> self.firmwares@[j].file_id@ != file_id@,
            decreases self.firmwares@.len() - i,
        {
            if self.firmwares[i].file_id.eq(file_id) {
                proof {
                    assert(0 <= i < self.firmwares@.len() && self.firmwares@[i as int].file_id@
                        == file_id@);
                }
                return true;
            }
            i = i + 1;
        }
        false
    }

    /// Register a device type.
    pub fn create_device_type(&mut self, id: u32, name: String) -> (r: Result<(), AdminError>)
        requires
            old(self).wf(),
        ensures
            final(self).wf(),
            name@.len() == 0 || name@.len() > 100 ==> r == Err::<(), AdminError>(
                AdminError::BadRequest,
            ) && *final(self) == *old(self),
            name@.len() > 0 && name@.len() <= 100 && has_device_type(
                old(self).device_types@,
                id,
            ) ==> r == Err::<(), AdminError>(AdminError::Conflict) && *final(self) == *old(self),
            r is Ok <==> (name@.len() > 0 && name@.len() <= 100 && !has_device_type(
                old(self).device_types@,
                id,
            )),
            r is Ok ==> final(self).device_types@ == old(self).device_types@.push(
                DeviceType { id, name },
            ) && final(self).devices == old(self).devices && final(self).firmwares == old(
                self,
            ).firmwares && final(self).keys == old(self).keys && final(self).key_details == old(
                self,
            ).key_details && final(self).blobs == old(self).blobs,
    {
        proof {
            reveal(catalog_wf);
        }
        if name.as_str().is_empty() || name.as_str().unicode_len() > 100 {
            return Err(AdminError::BadRequest);
        }
        if self.find_device_type(id).is_some() {
            return Err(AdminError::Conflict);
        }
        self.device_types.push(DeviceType { id, name });
        proof {
            assert forall|i: int, j: int|
                0 <= i < j < self.device_types@.len() implies self.device_types@[i].id
                != self.device_types@[j].id by {
                if j == self.device_types@.len() - 1 {
                    assert(self.device_types@[i] == old(self).device_types@[i]);
                }
            }
            assert forall|i: int|
                0 <= i < self.devices@.len() implies has_device_type(
                self.device_types@,
                self.devices@[i].type_,
            ) by {
                let w = choose|w: int|
                    0 <= w < old(self).device_types@.len() && old(self).device_types@[w].id == old(
                        self,
                    ).devices@[i].type_;
                assert(self.device_types@[w].id == self.devices@[i].type_);
            }
        }
        Ok(())
    }

    /// Register a device.
    pub fn create_device(
        &mut self,
        id: u32,
        name: String,
        type_: u32,
        firmware: Option<u32>,
        desired_firmware: u32,
        status: DeviceStatus,
    ) -> (r: Result<(), AdminError>)
        requires
            old(self).wf(),
        ensures
            final(self).wf(),
            r is Ok <==> (name@.len() > 0 && name@.len() <= 100 && !has_device(
                old(self).devices@,
                id,
            ) && has_device_type(old(self).device_types@, type_) && has_firmware(
                old(self).firmwares@,
                desired_firmware,
            ) && (match firmware {
                Some(f) => has_firmware(old(self).firmwares@, f),
                None => true,
            })),
            !(r is Ok) ==> *final(self) == *old(self),
            r is Ok ==> final(self).devices@ == old(self).devices@.push(
                Device { id, name, type_, firmware, desired_firmware, status },
            ) && final(self).device_types == old(self).device_types && final(self).firmwares == old(
                self,
            ).firmwares && final(self).keys == old(self).keys && final(self).key_details == old(
                self,
            ).key_details && final(self).blobs == old(self).blobs,
    {
        proof {
            reveal(catalog_wf);
        }
        if name.as_str().is_empty() || name.as_str().unicode_len() > 100 {
            return Err(AdminError::BadRequest);
        }
        if self.find_device(id).is_some() {
            return Err(AdminError::Conflict);
        }
        if self.find_device_type(type_).is_none() {
            return Err(AdminError::NotFound);
        }
        if self.find_firmware(desired_firmware).is_none() {
            return Err(AdminError::NotFound);
        }
        let fw_ok = match firmware {
            Some(f) => self.find_firmware(f).is_some(),
            None => true,
        };
        if !fw_ok {
            return Err(AdminError::NotFound);
        }
        self.devices.push(Device { id, name, type_, firmware, desired_firmware, status });
        proof {
            let devices = self.devices@;
            let n = devices.len() - 1;
            assert forall|i: int, j: int|
                0 <= i < j < devices.len() implies devices[i].id != devices[j].id by {
                if j == n {
                    assert(devices[i] == old(self).devices@[i]);
                }
            }
            assert forall|i: int|
                0 <= i < self.keys@.len() implies has_device(devices, self.keys@[i].device) by {
                let w = choose|w: int|
                    0 <= w < old(self).devices@.len() && old(self).devices@[w].id == old(
                        self,
                    ).keys@[i].device;
                assert(devices[w].id == self.keys@[i].device);
            }
        }
        Ok(())
    }
}

impl Catalog {
    /// Store an uploaded firmware image under a given file id: digest
    /// it and keep row and blob together.  Success and every error are
    /// pinned exactly; a taken file id is the one internal failure.
    pub fn create_firmware_with_file_id(
        &mut self,
        id: u32,
        name: String,
        version: String,
        data: Vec<u8>,
        file_id: String,
    ) -> (r: Result<(), AdminError>)
        requires
            old(self).wf(),
            data@.len() <= 0x4000_0000,
            file_id@.len() == 36,
        ensures
            final(self).wf(),
            !(r is Ok) ==> *final(self) == *old(self),
            name@.len() == 0 || name@.len() > 100 || version@.len() == 0 || version@.len() > 100
                || data@.len() == 0 ==> r == Err::<(), AdminError>(AdminError::BadRequest),
            name@.len() > 0 && name@.len() <= 100 && version@.len() > 0 && version@.len() <= 100
                && data@.len() > 0 && (has_firmware(old(self).firmwares@, id) || exists|i: int|
                #![trigger old(self).firmwares@[i]]
                0 <= i < old(self).firmwares@.len() && old(self).firmwares@[i].name@ == name@ && old(
                    self,
                ).firmwares@[i].version@ == version@) ==> r == Err::<(), AdminError>(
                AdminError::Conflict,
            ),
            name@.len() > 0 && name@.len() <= 100 && version@.len() > 0 && version@.len() <= 100
                && data@.len() > 0 && !has_firmware(old(self).firmwares@, id) && (forall|i: int|
                #![trigger old(self).firmwares@[i]]
                0 <= i < old(self).firmwares@.len() ==> !(old(self).firmwares@[i].name@ == name@
                    && old(self).firmwares@[i].version@ == version@)) && (exists|i: int|
                #![trigger old(self).firmwares@[i]]
                0 <= i < old(self).firmwares@.len() && old(self).firmwares@[i].file_id@ == file_id@)
                ==> r == Err::<(), AdminError>(AdminError::Internal),
            r is Ok <==> (name@.len() > 0 && name@.len() <= 100 && version@.len() > 0
                && version@.len() <= 100 && data@.len() > 0 && !has_firmware(
                old(self).firmwares@,
                id,
            ) && (forall|i: int|
                #![trigger old(self).firmwares@[i]]
                0 <= i < old(self).firmwares@.len() ==> !(old(self).firmwares@[i].name@ == name@
                    && old(self).firmwares@[i].version@ == version@)) && (forall|i: int|
                #![trigger old(self).firmwares@[i]]
                0 <= i < old(self).firmwares@.len() ==> old(self).firmwares@[i].file_id@
                    != file_id@)),
            r is Ok ==> final(self).firmwares@ == old(self).firmwares@.push(
                (Firmware {
                    id,
                    name,
                    version,
                    file_id,
                    size: data@.len() as i64,
                    sha256: final(self).firmwares@.last().sha256,
                }),
            ),
            r is Ok ==> final(self).firmwares@.last().sha256@ == spec_hex_lower(sha256_of(data@)),
            r is Ok ==> final(self).blobs@ == old(self).blobs@.push(final(self).blobs@.last()),
            r is Ok ==> final(self).blobs@.last().file_id@ == file_id@,
            r is Ok ==> final(self).blobs@.last().data@ == data@,
            r is Ok ==> final(self).devices == old(self).devices,
            r is Ok ==> final(self).device_types == old(self).device_types,
            r is Ok ==> final(self).keys == old(self).keys,
            r is Ok ==> final(self).key_details == old(self).key_details,
            r is Ok ==> final(self).next_key_id == old(self).next_key_id,
    {
        proof {
            reveal(catalog_wf);
        }
        if name.as_str().is_empty() || name.as_str().unicode_len() > 100 {
            return Err(AdminError::BadRequest);
        }
        if version.as_str().is_empty() || version.as_str().unicode_len() > 100 {
            return Err(AdminError::BadRequest);
        }
        if data.len() == 0 {
            return Err(AdminError::BadRequest);
        }
        if self.find_firmware(id).is_some() {
            return Err(AdminError::Conflict);
        }
        if self.has_name_version(&name, &version) {
            return Err(AdminError::Conflict);
        }
        if self.has_file_id(&file_id) {
            return Err(AdminError::Internal);
        }
        let digest = sha256_digest(data.as_slice());
        let sha = hex_lower(digest.as_slice());
        let size = data.len() as i64;
        let blob_id = file_id.clone();
        self.firmwares.push(Firmware { id, name, version, file_id, size, sha256: sha });
        self.blobs.push(FirmwareBlob { file_id: blob_id, data });
        proof {
            let firmwares = self.firmwares@;
            let n = firmwares.len() - 1;
            assert forall|i: int, j: int|
                #![trigger firmwares[i], firmwares[j]]
                0 <= i < j < firmwares.len() implies firmwares[i].id != firmwares[j].id && !(
            firmwares[i].name@ == firmwares[j].name@ && firmwares[i].version@
                == firmwares[j].version@) && firmwares[i].file_id@ != firmwares[j].file_id@ by {
                if j == n {
                    assert(firmwares[i] == old(self).firmwares@[i]);
                }
            }
            assert forall|i: int|
                0 <= i < self.devices@.len() implies has_firmware(
                firmwares,
                self.devices@[i].desired_firmware,
            ) by {
                let w = choose|w: int|
                    0 <= w < old(self).firmwares@.len() && old(self).firmwares@[w].id == old(
                        self,
                    ).devices@[i].desired_firmware;
                assert(firmwares[w].id == self.devices@[i].desired_firmware);
            }
            assert forall|i: int|
                #![trigger self.devices@[i]]
                0 <= i < self.devices@.len() implies (match self.devices@[i].firmware {
                Some(f) => has_firmware(firmwares, f),
                None => true,
            }) by {
                match self.devices@[i].firmware {
                    Some(f) => {
                        let w = choose|w: int|
                            0 <= w < old(self).firmwares@.len() && old(self).firmwares@[w].id == f;
                        assert(firmwares[w].id == f);
                    },
                    None => {},
                }
            }
        }
        Ok(())
    }

    /// Store an uploaded firmware image: digest it, give it a fresh
    /// random file id, and keep row and blob together.  With valid,
    /// unconflicting inputs this fails only if the fresh file id happens
    /// to collide with a stored one; `create_firmware_with_file_id`
    /// carries the exact contract for a given file id.
    pub fn create_firmware(&mut self, id: u32, name: String, version: String, data: Vec<u8>) -> (r:
        Result<(), AdminError>)
        requires
            old(self).wf(),
            data@.len() <= 0x4000_0000,
        ensures
            final(self).wf(),
            !(r is Ok) ==> *final(self) == *old(self),
            name@.len() == 0 || name@.len() > 100 || version@.len() == 0 || version@.len() > 100
                || data@.len() == 0 ==> r == Err::<(), AdminError>(AdminError::BadRequest),
            r is Ok ==> {
                let fw = final(self).firmwares@.last();
                &&& final(self).firmwares@ == old(self).firmwares@.push(fw)
                &&& fw.id == id
                &&& fw.name@ == name@
                &&& fw.version@ == version@
                &&& fw.file_id@.len() == 36
                &&& fw.size == data@.len()
                &&& fw.sha256@ == spec_hex_lower(sha256_of(data@))
                &&& final(self).blobs@ == old(self).blobs@.push(
                    final(self).blobs@.last(),
                )
                &&& final(self).blobs@.last().file_id@ == fw.file_id@
                &&& final(self).blobs@.last().data@ == data@
                &&& final(self).devices == old(self).devices
                &&& final(self).device_types == old(self).device_types
                &&& final(self).keys == old(self).keys
                &&& final(self).key_details == old(self).key_details
                &&& final(self).next_key_id == old(self).next_key_id
            },
            r is Ok ==> !has_firmware(old(self).firmwares@, id),
            name@.len() > 0 && name@.len() <= 100 && version@.len() > 0 && version@.len() <= 100
                && data@.len() > 0 && (has_firmware(old(self).firmwares@, id) || exists|i: int|
                #![trigger old(self).firmwares@[i]]
                0 <= i < old(self).firmwares@.len() && old(self).firmwares@[i].name@ == name@ && old(
                    self,
                ).firmwares@[i].version@ == version@) ==> r == Err::<(), AdminError>(
                AdminError::Conflict,
            ),
            name@.len() > 0 && name@.len() <= 100 && version@.len() > 0 && version@.len() <= 100
                && data@.len() > 0 && !has_firmware(old(self).firmwares@, id) && (forall|i: int|
                #![trigger old(self).firmwares@[i]]
                0 <= i < old(self).firmwares@.len() ==> !(old(self).firmwares@[i].name@ == name@
                    && old(self).firmwares@[i].version@ == version@)) ==> (r is Ok || r == Err::<
                (),
                AdminError,
            >(AdminError::Internal)),
    {
        let file_id = new_file_id();
        self.create_firmware_with_file_id(id, name, version, data, file_id)
    }

    /// Remove a firmware row and its stored image.  A row some device
    /// still references cannot go.
    pub fn delete_firmware(&mut self, id: u32) -> (r: Result<(), AdminError>)
        requires
            old(self).wf(),
        ensures
            final(self).wf(),
            !(r is Ok) ==> *final(self) == *old(self),
            !has_firmware(old(self).firmwares@, id) ==> r == Err::<(), AdminError>(
                AdminError::NotFound,
            ),
            r is Ok <==> (has_firmware(old(self).firmwares@, id) && (forall|i: int|
                #![trigger old(self).devices@[i]]
                0 <= i < old(self).devices@.len() ==> old(self).devices@[i].desired_firmware != id
                    && old(self).devices@[i].firmware != Some(id))),
            r is Ok ==> exists|i: int|
                #![trigger old(self).firmwares@[i]]
                {
                    &&& 0 <= i < old(self).firmwares@.len()
                    &&& old(self).firmwares@[i].id == id
                    &&& final(self).firmwares@ == old(self).firmwares@.remove(i)
                    &&& final(self).blobs@ == old(self).blobs@.remove(i)
                },
            r is Ok ==> final(self).devices == old(self).devices && final(self).device_types == old(
                self,
            ).device_types && final(self).keys == old(self).keys && final(self).key_details == old(
                self,
            ).key_details && final(self).next_key_id == old(self).next_key_id,
    {
        proof {
            reveal(catalog_wf);
        }
        let fi = match self.find_firmware(id) {
            Some(i) => i,
            None => {
                return Err(AdminError::NotFound);
            },
        };
        let mut di: usize = 0;
        while di < self.devices.len()
            invariant
                *self == *old(self),
                self.wf(),
                fi < self.firmwares@.len(),
                self.firmwares@[fi as int].id == id,
                di <= self.devices@.len(),
                forall|j: int|
                    #![trigger self.devices@[j]]
                    0 <= j < di ==> self.devices@[j].desired_firmware != id && self.devices@[j].firmware
                        != Some(id),
            decreases self.devices@.len() - di,
        {
            let references = self.devices[di].desired_firmware == id || (match self.devices[di].firmware {
                Some(f) => f == id,
                None => false,
            });
            if references {
                return Err(AdminError::Internal);
            }
            di = di + 1;
        }
        let ghost oldc = *self;
        self.firmwares.remove(fi);
        self.blobs.remove(fi);
        proof {
            oldc.firmwares@.remove_ensures(fi as int);
            oldc.blobs@.remove_ensures(fi as int);
            let firmwares = self.firmwares@;
            assert forall|i: int, j: int|
                #![trigger firmwares[i], firmwares[j]]
                0 <= i < j < firmwares.len() implies firmwares[i].id != firmwares[j].id && !(
            firmwares[i].name@ == firmwares[j].name@ && firmwares[i].version@
                == firmwares[j].version@) && firmwares[i].file_id@ != firmwares[j].file_id@ by {
                let oi = if i < fi { i } else { i + 1 };
                let oj = if j < fi { j } else { j + 1 };
                assert(firmwares[i] == oldc.firmwares@[oi]);
                assert(firmwares[j] == oldc.firmwares@[oj]);
            }
            assert forall|i: int|
                #![trigger self.blobs@[i]]
                0 <= i < firmwares.len() implies self.blobs@[i].file_id@ == firmwares[i].file_id@
                && self.blobs@[i].data@.len() == firmwares[i].size by {
                let oi = if i < fi { i } else { i + 1 };
                assert(firmwares[i] == oldc.firmwares@[oi]);
                assert(self.blobs@[i] == oldc.blobs@[oi]);
            }
            assert forall|i: int|
                0 <= i < self.devices@.len() implies has_firmware(
                firmwares,
                self.devices@[i].desired_firmware,
            ) by {
                let w = choose|w: int|
                    0 <= w < oldc.firmwares@.len() && oldc.firmwares@[w].id
                        == self.devices@[i].desired_firmware;
                let nw = if w < fi { w } else { w - 1 };
                assert(w != fi);
                assert(firmwares[nw] == oldc.firmwares@[w]);
            }
            assert forall|i: int|
                #![trigger self.devices@[i]]
                0 <= i < self.devices@.len() implies (match self.devices@[i].firmware {
                Some(f) => has_firmware(firmwares, f),
                None => true,
            }) by {
                match self.devices@[i].firmware {
                    Some(f) => {
                        let w = choose|w: int|
                            0 <= w < oldc.firmwares@.len() && oldc.firmwares@[w].id == f;
                        let nw = if w < fi { w } else { w - 1 };
                        assert(w != fi);
                        assert(firmwares[nw] == oldc.firmwares@[w]);
                    },
                    None => {},
                }
            }
        }
        Ok(())
    }

    /// Apply a device's own update of its firmware and status, returning
    /// what the response reports: the new firmware, the desired firmware
    /// and the new status.
    pub fn set_device_info(&mut self, device_id: u32, firmware: u32, status: DeviceStatus) -> (r:
        Result<(u32, u32, DeviceStatus), AdminError>)
        requires
            old(self).wf(),
        ensures
            final(self).wf(),
            !(r is Ok) ==> *final(self) == *old(self),
            !has_device(old(self).devices@, device_id) ==> r == Err::<
                (u32, u32, DeviceStatus),
                AdminError,
            >(AdminError::NotFound),
            has_device(old(self).devices@, device_id) && !has_firmware(
                old(self).firmwares@,
                firmware,
            ) ==> r == Err::<(u32, u32, DeviceStatus), AdminError>(AdminError::Internal),
            r is Ok <==> (has_device(old(self).devices@, device_id) && has_firmware(
                old(self).firmwares@,
                firmware,
            )),
            r matches Ok(out) ==> exists|i: int|
                #![trigger old(self).devices@[i]]
                {
                    &&& 0 <= i < old(self).devices@.len()
                    &&& old(self).devices@[i].id == device_id
                    &&& out == (firmware, old(self).devices@[i].desired_firmware, status)
                    &&& final(self).devices@ == old(self).devices@.update(
                        i,
                        (Device {
                            id: old(self).devices@[i].id,
                            name: old(self).devices@[i].name,
                            type_: old(self).devices@[i].type_,
                            firmware: Some(firmware),
                            desired_firmware: old(self).devices@[i].desired_firmware,
                            status,
                        }),
                    )
                },
            r is Ok ==> final(self).device_types == old(self).device_types && final(self).firmwares
                == old(self).firmwares && final(self).keys == old(self).keys && final(self).key_details == old(self).key_details && final(self).blobs == old(self).blobs && final(self).next_key_id == old(self).next_key_id,
    {
        proof {
            reveal(catalog_wf);
        }
        let di = match self.find_device(device_id) {
            Some(i) => i,
            None => {
                return Err(AdminError::NotFound);
            },
        };
        if self.find_firmware(firmware).is_none() {
            return Err(AdminError::Internal);
        }
        let ghost oldc = *self;
        let mut row = self.devices.remove(di);
        let desired = row.desired_firmware;
        row.firmware = Some(firmware);
        row.status = status;
        self.devices.insert(di, row);
        proof {
            assert(self.devices@ =~= oldc.devices@.update(
                di as int,
                Device {
                    id: oldc.devices@[di as int].id,
                    name: oldc.devices@[di as int].name,
                    type_: oldc.devices@[di as int].type_,
                    firmware: Some(firmware),
                    desired_firmware: oldc.devices@[di as int].desired_firmware,
                    status,
                },
            ));
            let devices = self.devices@;
            assert forall|i: int, j: int|
                #![trigger devices[i], devices[j]]
                0 <= i < j < devices.len() implies devices[i].id != devices[j].id by {
                assert(devices[i].id == oldc.devices@[i].id);
                assert(devices[j].id == oldc.devices@[j].id);
            }
            assert forall|i: int|
                0 <= i < self.keys@.len() implies has_device(devices, self.keys@[i].device) by {
                let w = choose|w: int|
                    0 <= w < oldc.devices@.len() && oldc.devices@[w].id == self.keys@[i].device;
                assert(devices[w].id == self.keys@[i].device);
            }
        }
        Ok((firmware, desired, status))
    }
}

impl Catalog {
    /// The index of the key row with this row id on this device.
    pub fn find_key(&self, device_id: u32, key_id: u32) -> (r: Option<usize>)
        ensures
            match r {
                Some(i) => i < self.keys@.len() && self.keys@[i as int].id == key_id
                    && self.keys@[i as int].device == device_id,
                None => forall|j: int|
                    #![trigger self.keys@[j]]
                    0 <= j < self.keys@.len() ==> !(self.keys@[j].id == key_id
                        && self.keys@[j].device == device_id),
            },
    {
        let mut i: usize = 0;
        while i < self.keys.len()
            invariant
                i <= self.keys@.len(),
                forall|j: int|
                    #![trigger self.keys@[j]]
                    0 <= j < i ==> !(self.keys@[j].id == key_id && self.keys@[j].device
                        == device_id),
            decreases self.keys@.len() - i,
        {
            if self.keys[i].id == key_id && self.keys[i].device == device_id {
                return Some(i);
            }
            i = i + 1;
        }
        None
    }

    /// Provision a key for a device.  A pending NEXT key blocks any new
    /// one before anything else is looked at; the first key of a device
    /// becomes ACTIVE, any later one NEXT.  TLS keys are reserved: a
    /// request for one is refused whole, with its own error, and leaves
    /// no row behind.
    pub fn create_device_key(
        &mut self,
        device_id: u32,
        kind: KeyType,
        algorithm: CryptoAlgorithm,
        key: Vec<u8>,
    ) -> (r: Result<(u32, KeyStatus), KeyLifecycleError>)
        requires
            old(self).wf(),
            old(self).next_key_id < 0xFFFF_FFFF,
        ensures
            final(self).wf(),
            !(r is Ok) ==> *final(self) == *old(self),
            has_key_with_status(old(self).keys@, device_id, KeyStatus::Next) ==> r == Err::<
                (u32, KeyStatus),
                KeyLifecycleError,
            >(KeyLifecycleError::Conflict),
            !has_key_with_status(old(self).keys@, device_id, KeyStatus::Next) && kind
                == KeyType::Lightweight && key@.len() != 16 ==> r == Err::<
                (u32, KeyStatus),
                KeyLifecycleError,
            >(KeyLifecycleError::InvalidKeyLength),
            !has_key_with_status(old(self).keys@, device_id, KeyStatus::Next) && (kind
                == KeyType::Tls || key@.len() == 16) && !has_device(old(self).devices@, device_id)
                ==> r == Err::<(u32, KeyStatus), KeyLifecycleError>(KeyLifecycleError::NotFound),
            kind == KeyType::Tls && !has_key_with_status(old(self).keys@, device_id, KeyStatus::Next)
                && has_device(old(self).devices@, device_id) ==> r == Err::<
                (u32, KeyStatus),
                KeyLifecycleError,
            >(KeyLifecycleError::TlsUnsupported),
            r is Ok <==> (kind == KeyType::Lightweight && key@.len() == 16 && !has_key_with_status(
                old(self).keys@,
                device_id,
                KeyStatus::Next,
            ) && has_device(old(self).devices@, device_id)),
            r matches Ok(out) ==> {
                let st = if has_key_with_status(old(self).keys@, device_id, KeyStatus::Active) {
                    KeyStatus::Next
                } else {
                    KeyStatus::Active
                };
                &&& out == (old(self).next_key_id, st)
                &&& final(self).keys@ == old(self).keys@.push(
                    (DeviceKey {
                        id: old(self).next_key_id,
                        device: device_id,
                        key_type: KeyType::Lightweight,
                        status: st,
                    }),
                )
                &&& final(self).key_details@ == old(self).key_details@.push(
                    (LightweightKeyDetails {
                        id: old(self).next_key_id,
                        device_key: old(self).next_key_id,
                        algorithm,
                        key,
                    }),
                )
                &&& final(self).next_key_id == old(self).next_key_id + 1
                &&& final(self).devices == old(self).devices
                &&& final(self).device_types == old(self).device_types
                &&& final(self).firmwares == old(self).firmwares
                &&& final(self).blobs == old(self).blobs
            },
    {
        proof {
            reveal(catalog_wf);
        }
        if self.find_key_with_status(device_id, KeyStatus::Next).is_some() {
            return Err(KeyLifecycleError::Conflict);
        }
        let is_lightweight = match kind {
            KeyType::Lightweight => true,
            KeyType::Tls => false,
        };
        if is_lightweight && key.len() != 16 {
            return Err(KeyLifecycleError::InvalidKeyLength);
        }
        if self.find_device(device_id).is_none() {
            return Err(KeyLifecycleError::NotFound);
        }
        if !is_lightweight {
            return Err(KeyLifecycleError::TlsUnsupported);
        }
        let status = if self.find_key_with_status(device_id, KeyStatus::Active).is_some() {
            KeyStatus::Next
        } else {
            KeyStatus::Active
        };
        let nid = self.next_key_id;
        self.keys.push(DeviceKey { id: nid, device: device_id, key_type: KeyType::Lightweight, status });
        self.key_details.push(LightweightKeyDetails { id: nid, device_key: nid, algorithm, key });
        self.next_key_id = nid + 1;
        proof {
            let keys = self.keys@;
            let details = self.key_details@;
            let n = keys.len() - 1;
            assert forall|i: int, j: int|
                #![trigger keys[i], keys[j]]
                0 <= i < j < keys.len() implies keys[i].id != keys[j].id by {
                if j == n {
                    assert(keys[i] == old(self).keys@[i]);
                }
            }
            assert forall|i: int, j: int|
                #![trigger keys[i], keys[j]]
                0 <= i < keys.len() && 0 <= j < keys.len() && i != j && keys[i].device
                    == keys[j].device implies !(keys[i].status == KeyStatus::Active && keys[j].status
                == KeyStatus::Active) && !(keys[i].status == KeyStatus::Next && keys[j].status
                == KeyStatus::Next) by {
                if i != n && j != n {
                    assert(keys[i] == old(self).keys@[i]);
                    assert(keys[j] == old(self).keys@[j]);
                }
            }
            assert forall|i: int|
                0 <= i < keys.len() implies has_device(self.devices@, keys[i].device) by {
                if i == n {
                } else {
                    assert(keys[i] == old(self).keys@[i]);
                }
            }
            assert forall|i: int, j: int|
                #![trigger details[i], details[j]]
                0 <= i < j < details.len() implies details[i].device_key != details[j].device_key by {
                if j == details.len() - 1 {
                    assert(details[i] == old(self).key_details@[i]);
                }
            }
            assert forall|i: int|
                #![trigger keys[i]]
                0 <= i < keys.len() && keys[i].key_type == KeyType::Lightweight implies exists|j: int|
                #![trigger details[j]]
                0 <= j < details.len() && details[j].device_key == keys[i].id by {
                if i == n {
                    assert(details[details.len() - 1].device_key == keys[i].id);
                } else {
                    assert(keys[i] == old(self).keys@[i]);
                    let w = choose|w: int|
                        0 <= w < old(self).key_details@.len() && old(self).key_details@[w].device_key
                            == old(self).keys@[i].id;
                    assert(details[w].device_key == keys[i].id);
                }
            }
        }
        Ok((nid, status))
    }

    /// Delete a key.  An ACTIVE key cannot go; a NEXT or EXPIRED key goes
    /// together with its key material.
    pub fn delete_device_key(&mut self, device_id: u32, key_id: u32) -> (r: Result<
        (),
        KeyLifecycleError,
    >)
        requires
            old(self).wf(),
        ensures
            final(self).wf(),
            !(r is Ok) ==> *final(self) == *old(self),
            (forall|j: int|
                #![trigger old(self).keys@[j]]
                0 <= j < old(self).keys@.len() ==> !(old(self).keys@[j].id == key_id && old(
                    self,
                ).keys@[j].device == device_id)) ==> r == Err::<(), KeyLifecycleError>(
                KeyLifecycleError::NotFound,
            ),
            r is Ok <==> exists|i: int|
                #![trigger old(self).keys@[i]]
                0 <= i < old(self).keys@.len() && old(self).keys@[i].id == key_id && old(
                    self,
                ).keys@[i].device == device_id && old(self).keys@[i].status != KeyStatus::Active,
            (exists|i: int|
                #![trigger old(self).keys@[i]]
                0 <= i < old(self).keys@.len() && old(self).keys@[i].id == key_id && old(
                    self,
                ).keys@[i].device == device_id && old(self).keys@[i].status == KeyStatus::Active)
                ==> r == Err::<(), KeyLifecycleError>(KeyLifecycleError::Conflict),
            r is Ok ==> exists|i: int|
                #![trigger old(self).keys@[i]]
                {
                    &&& 0 <= i < old(self).keys@.len()
                    &&& old(self).keys@[i].id == key_id
                    &&& old(self).keys@[i].device == device_id
                    &&& final(self).keys@ == old(self).keys@.remove(i)
                },
            r is Ok ==> ((forall|j: int|
                #![trigger old(self).key_details@[j]]
                0 <= j < old(self).key_details@.len() ==> old(self).key_details@[j].device_key
                    != key_id) ==> final(self).key_details == old(self).key_details),
            r is Ok ==> ((exists|j: int|
                #![trigger old(self).key_details@[j]]
                0 <= j < old(self).key_details@.len() && old(self).key_details@[j].device_key
                    == key_id) ==> exists|j: int|
                #![trigger old(self).key_details@[j]]
                {
                    &&& 0 <= j < old(self).key_details@.len()
                    &&& old(self).key_details@[j].device_key == key_id
                    &&& final(self).key_details@ == old(self).key_details@.remove(j)
                }),
            r is Ok ==> final(self).devices == old(self).devices && final(self).device_types == old(
                self,
            ).device_types && final(self).firmwares == old(self).firmwares && final(self).blobs
                == old(self).blobs && final(self).next_key_id == old(self).next_key_id,
    {
        proof {
            reveal(catalog_wf);
        }
        let ki = match self.find_key(device_id, key_id) {
            Some(i) => i,
            None => {
                return Err(KeyLifecycleError::NotFound);
            },
        };
        let is_active = match self.keys[ki].status {
            KeyStatus::Active => true,
            _ => false,
        };
        if is_active {
            return Err(KeyLifecycleError::Conflict);
        }
        let ghost oldc = *self;
        self.keys.remove(ki);
        proof {
            oldc.keys@.remove_ensures(ki as int);
            let keys = self.keys@;
            assert forall|i: int, j: int|
                #![trigger keys[i], keys[j]]
                0 <= i < j < keys.len() implies keys[i].id != keys[j].id by {
                let oi = if i < ki { i } else { i + 1 };
                let oj = if j < ki { j } else { j + 1 };
                assert(keys[i] == oldc.keys@[oi]);
                assert(keys[j] == oldc.keys@[oj]);
            }
            assert forall|i: int, j: int|
                #![trigger keys[i], keys[j]]
                0 <= i < keys.len() && 0 <= j < keys.len() && i != j && keys[i].device
                    == keys[j].device implies !(keys[i].status == KeyStatus::Active && keys[j].status
                == KeyStatus::Active) && !(keys[i].status == KeyStatus::Next && keys[j].status
                == KeyStatus::Next) by {
                let oi = if i < ki { i } else { i + 1 };
                let oj = if j < ki { j } else { j + 1 };
                assert(keys[i] == oldc.keys@[oi]);
                assert(keys[j] == oldc.keys@[oj]);
            }
            assert forall|i: int| 0 <= i < keys.len() implies keys[i].id < self.next_key_id by {
                let oi = if i < ki { i } else { i + 1 };
                assert(keys[i] == oldc.keys@[oi]);
            }
            assert forall|i: int|
                0 <= i < keys.len() implies has_device(self.devices@, keys[i].device) by {
                let oi = if i < ki { i } else { i + 1 };
                assert(keys[i] == oldc.keys@[oi]);
            }
            assert forall|i: int|
                #![trigger keys[i]]
                0 <= i < keys.len() implies keys[i].id != key_id by {
                let oi = if i < ki { i } else { i + 1 };
                assert(keys[i] == oldc.keys@[oi]);
            }
        }
        match self.find_key_details(key_id) {
            Some(dj) => {
                let ghost oldd = self.key_details@;
                self.key_details.remove(dj);
                proof {
                    oldd.remove_ensures(dj as int);
                    let keys = self.keys@;
                    let details = self.key_details@;
                    assert forall|i: int, j: int|
                        #![trigger details[i], details[j]]
                        0 <= i < j < details.len() implies details[i].device_key
                        != details[j].device_key by {
                        let oi = if i < dj { i } else { i + 1 };
                        let oj = if j < dj { j } else { j + 1 };
                        assert(details[i] == oldd[oi]);
                        assert(details[j] == oldd[oj]);
                    }
                    assert forall|i: int|
                        #![trigger details[i]]
                        0 <= i < details.len() implies details[i].key@.len() == 16
                        && details[i].device_key < self.next_key_id by {
                        let oi = if i < dj { i } else { i + 1 };
                        assert(details[i] == oldd[oi]);
                    }
                    assert forall|i: int|
                        #![trigger keys[i]]
                        0 <= i < keys.len() && keys[i].key_type == KeyType::Lightweight implies exists|
                        j: int,
                    |
                        #![trigger details[j]]
                        0 <= j < details.len() && details[j].device_key == keys[i].id by {
                        let w = choose|w: int|
                            0 <= w < oldd.len() && oldd[w].device_key == keys[i].id;
                        assert(keys[i].id != key_id);
                        assert(w != dj);
                        let nw = if w < dj { w } else { w - 1 };
                        assert(details[nw] == oldd[w]);
                    }
                }
                Ok(())
            },
            None => {
                proof {
                    let keys = self.keys@;
                    let details = self.key_details@;
                    assert forall|i: int|
                        #![trigger keys[i]]
                        0 <= i < keys.len() && keys[i].key_type == KeyType::Lightweight implies exists|
                        j: int,
                    |
                        #![trigger details[j]]
                        0 <= j < details.len() && details[j].device_key == keys[i].id by {
                        let w = choose|w: int|
                            0 <= w < details.len() && details[w].device_key == keys[i].id;
                        assert(details[w].device_key == keys[i].id);
                    }
                }
                Ok(())
            },
        }
    }
}

/// A key the catalog resolves has the algorithms' key length.
pub proof fn lemma_resolved_key_len(c: Catalog, device_id: u32, requested: WireKeyType)
    requires
        catalog_wf(c),
        spec_key_for_device(c, device_id, requested) is Ok,
    ensures
        spec_key_for_device(c, device_id, requested)->Ok_0.len() == 16,
{
    reveal(catalog_wf);
    reveal(spec_key_for_device);
}

/// Under the invariant, any row with the device's id is the one a
/// choice of such a row picks, so lookups are determined row by row.
pub proof fn lemma_device_is_chosen(c: Catalog, id: u32, i: int)
    requires
        catalog_wf(c),
        0 <= i < c.devices@.len(),
        c.devices@[i].id == id,
    ensures
        has_device(c.devices@, id),
        (choose|j: int| 0 <= j < c.devices@.len() && c.devices@[j].id == id) == i,
{
    reveal(catalog_wf);
    assert(has_device(c.devices@, id)) by {
        assert(0 <= i < c.devices@.len() && c.devices@[i].id == id);
    }
    let j = choose|j: int| 0 <= j < c.devices@.len() && c.devices@[j].id == id;
    if j != i {
        assert(c.devices@[i].id != c.devices@[j].id);
        assert(false);
    }
}

/// As `lemma_device_is_chosen`, for firmware rows.
pub proof fn lemma_firmware_is_chosen(c: Catalog, id: u32, i: int)
    requires
        catalog_wf(c),
        0 <= i < c.firmwares@.len(),
        c.firmwares@[i].id == id,
    ensures
        has_firmware(c.firmwares@, id),
        (choose|j: int| 0 <= j < c.firmwares@.len() && c.firmwares@[j].id == id) == i,
{
    reveal(catalog_wf);
    assert(has_firmware(c.firmwares@, id)) by {
        assert(0 <= i < c.firmwares@.len() && c.firmwares@[i].id == id);
    }
    let j = choose|j: int| 0 <= j < c.firmwares@.len() && c.firmwares@[j].id == id;
    if j != i {
        assert(c.firmwares@[i].id != c.firmwares@[j].id);
        assert(false);
    }
}

/// Under the invariant, the blob with a firmware row's file id is the
/// one stored at the row's own index.
pub proof fn lemma_blob_of_firmware(c: Catalog, fi: int, bi: int)
    requires
        catalog_wf(c),
        0 <= fi < c.firmwares@.len(),
        0 <= bi < c.blobs@.len(),
        c.blobs@[bi].file_id@ == c.firmwares@[fi].file_id@,
    ensures
        bi == fi,
{
    reveal(catalog_wf);
    if bi != fi {
        assert(c.blobs@[bi].file_id@ == c.firmwares@[bi].file_id@);
        assert(c.firmwares@[bi].file_id@ != c.firmwares@[fi].file_id@);
        assert(false);
    }
}

} // verus!