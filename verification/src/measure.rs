//! From a PIN to the bytes that are extended into the PIN PCR:
//!
//! ```text
//! measured = "pinnacle" || pcr_index_le || argon2id(pin_char16le, salt, params)
//! ```

use vstd::prelude::*;

use crate::bytes::law_le16s_adds_up;
use crate::bytes::law_le16s_injective;
use crate::bytes::le16_bytes;
use crate::bytes::le16s;
use crate::bytes::le32;
use crate::bytes::le32_bytes;
use crate::log::Fatal;
use crate::log::Level;
use crate::log::Record;
use crate::log::RecordView;
use crate::log::record;
use crate::log::records_view;
use crate::log::unexpected;
use crate::scrub::ScrubbedBytes;
use crate::status::INVALID_PARAMETER;
use crate::status::OUT_OF_RESOURCES;
use crate::status::Status;
use crate::text::hex;
use crate::text::hex_text;

verus! {

/// Non-resettable PCR the PIN measurement is extended into: "system identity",
/// the least contended slot that cannot be reset without a reboot.
pub const PIN_PCR_INDEX: u32 = 15;

/// Domain separator prepended to the PIN-derived measurement: `pinnacle`.
pub const DOMAIN_PREFIX: [u8; 8] = [0x70, 0x69, 0x6e, 0x6e, 0x61, 0x63, 0x6c, 0x65];

/// Event log entry text: `pinnacle secret PIN measurement was extended` and a NUL.
pub const EVENT_TEXT: [u8; 45] = [
    0x70,
    0x69,
    0x6e,
    0x6e,
    0x61,
    0x63,
    0x6c,
    0x65,
    0x20,
    0x73,
    0x65,
    0x63,
    0x72,
    0x65,
    0x74,
    0x20,
    0x50,
    0x49,
    0x4e,
    0x20,
    0x6d,
    0x65,
    0x61,
    0x73,
    0x75,
    0x72,
    0x65,
    0x6d,
    0x65,
    0x6e,
    0x74,
    0x20,
    0x77,
    0x61,
    0x73,
    0x20,
    0x65,
    0x78,
    0x74,
    0x65,
    0x6e,
    0x64,
    0x65,
    0x64,
    0x00,
];

/// `EV_EFI_ACTION`, the type of the event log entry.
pub const EFI_ACTION: u32 = 0x8000_0007;

/// `EFI_TCG2_EXTEND_ONLY`: extend the PCR without an event log entry.
pub const EFI_TCG2_EXTEND_ONLY: u64 = 1;

/// Salt used only when the machine reports no usable SMBIOS UUID (see
/// [`pin_salt`]): `pinnacle-of-engineering`.
pub const FALLBACK_SALT: [u8; 23] = [
    0x70,
    0x69,
    0x6e,
    0x6e,
    0x61,
    0x63,
    0x6c,
    0x65,
    0x2d,
    0x6f,
    0x66,
    0x2d,
    0x65,
    0x6e,
    0x67,
    0x69,
    0x6e,
    0x65,
    0x65,
    0x72,
    0x69,
    0x6e,
    0x67,
];

/// Argon2id memory cost in KiB: 64 MiB.
pub const ARGON2_MEM_KIB: u32 = 65536;

/// Argon2id passes over the memory.
pub const ARGON2_TIME: u32 = 64;

/// Argon2id lanes (one, as UEFI is single-threaded).
pub const ARGON2_LANES: u32 = 1;

/// Length of the derived Argon2id key extended into the PCR. Matches SHA-256.
pub const PIN_HASH_LEN: usize = 32;

/// The tag of Argon2id, version 1.3, without secret or associated data.
pub uninterp spec fn argon2id(
    password: Seq<u8>,
    salt: Seq<u8>,
    mem_kib: u32,
    passes: u32,
    lanes: u32,
    tag_len: nat,
) -> Seq<u8>;

/// The Argon2 cost parameters that `argon2::Params::new` accepts.
pub open spec fn valid_costs(mem_kib: u32, passes: u32, lanes: u32, tag_len: nat) -> bool {
    &&& mem_kib >= 8
    &&& mem_kib >= 8 * lanes
    &&& passes >= 1
    &&& 1 <= lanes <= 0xff_ffff
    &&& 4 <= tag_len <= 0xffff_ffff
}

/// The password and salt lengths that `argon2` accepts.
pub open spec fn valid_inputs(password: Seq<u8>, salt: Seq<u8>) -> bool {
    &&& password.len() <= 0xffff_ffff
    &&& 8 <= salt.len() <= 0xffff_ffff
}

#[verifier::external_type_specification]
#[verifier::external_body]
pub struct ExArgon2Error(argon2::Error);

/// `argon2::Params::new` succeeds on valid cost parameters and on no others. Its
/// check of the lane count multiplies by eight, so larger counts are left out.
#[verifier::external_body]
fn check_costs(mem_kib: u32, passes: u32, lanes: u32, tag_len: usize) -> (r: Result<
    (),
    argon2::Error,
>)
    requires
        8 * lanes <= u32::MAX,
    ensures
        r is Ok <==> valid_costs(mem_kib, passes, lanes, tag_len as nat),
{
    argon2::Params::new(mem_kib, passes, lanes, Some(tag_len)).map(|_params| ())
}

/// `Argon2::hash_password_into` for Argon2id version 1.3, writing to the whole of
/// `tag`. It fails exactly where a length is out of range, and on success the
/// buffer holds the tag of its length. The working memory has to fit in the address
/// space; where the allocator has not enough left, the program ends.
#[verifier::external_body]
fn hash_into(
    password: &[u8],
    salt: &[u8],
    mem_kib: u32,
    passes: u32,
    lanes: u32,
    tag: &mut [u8],
) -> (r: Result<(), argon2::Error>)
    requires
        valid_costs(mem_kib, passes, lanes, old(tag)@.len()),
        1024 * mem_kib <= isize::MAX,
    ensures
        r is Ok <==> valid_inputs(password@, salt@),
        r is Ok ==> final(tag)@ == argon2id(
            password@,
            salt@,
            mem_kib,
            passes,
            lanes,
            old(tag)@.len(),
        ),
        final(tag)@.len() == old(tag)@.len(),
{
    let params = argon2::Params::new(mem_kib, passes, lanes, Some(tag.len()))?;
    argon2::Argon2::new(argon2::Algorithm::Argon2id, argon2::Version::V0x13, params)
        .hash_password_into(password, salt, tag)
}

/// Cost parameters of the PIN hash.
#[derive(Clone, Copy, Debug)]
pub struct Costs {
    pub mem_kib: u32,
    pub passes: u32,
    pub lanes: u32,
    pub tag_len: usize,
}

impl Costs {
    /// Whether Argon2 accepts these parameters.
    pub open spec fn valid(self) -> bool {
        valid_costs(self.mem_kib, self.passes, self.lanes, self.tag_len as nat)
    }
}

/// The Argon2id hash of a PIN, whose password input is the little-endian
/// serialization of its `CHAR16` code units.
pub open spec fn hash_of(pin: Seq<u16>, salt: Seq<u8>, costs: Costs) -> Seq<u8> {
    argon2id(
        le16s(pin),
        salt,
        costs.mem_kib,
        costs.passes,
        costs.lanes,
        costs.tag_len as nat,
    )
}

/// The hash of a PIN with the parameters of the PIN measurement.
pub open spec fn pin_hash(pin: Seq<u16>, salt: Seq<u8>) -> Seq<u8> {
    argon2id(
        le16s(pin),
        salt,
        ARGON2_MEM_KIB,
        ARGON2_TIME,
        ARGON2_LANES,
        PIN_HASH_LEN as nat,
    )
}

/// The bytes that are hashed into the PCR for a PIN hash.
pub open spec fn measured(hash: Seq<u8>) -> Seq<u8> {
    DOMAIN_PREFIX@ + le32(PIN_PCR_INDEX) + hash
}

/// The little-endian serialization of a PIN, in a buffer that is allocated for
/// exactly that length before secret bytes are written.
fn pin_bytes(pin: &[u16]) -> (bytes: ScrubbedBytes)
    requires
        2 * pin@.len() <= isize::MAX,
    ensures
        bytes@ == le16s(pin@),
{
    let mut bytes = ScrubbedBytes::with_limit(2 * pin.len());
    let mut i: usize = 0;
    while i < pin.len()
        invariant
            i <= pin.len(),
            bytes@ == le16s(pin@.take(i as int)),
            bytes.limit() == 2 * pin@.len(),
        decreases pin.len() - i,
    {
        let unit: [u8; 2] = le16_bytes(pin[i]);
        bytes.extend(unit.as_slice());
        i = i + 1;
        assert(bytes@ =~= le16s(pin@.take(i as int)));
    }
    assert(pin@.take(i as int) =~= pin@);
    bytes
}

/// Derive a memory-hard hash of a PIN with Argon2id at the given cost. Both the
/// serialized PIN and the derived hash live in scrubbed buffers.
pub fn derive_hash(costs: Costs, salt: &[u8], pin: &[u16]) -> (r: Result<ScrubbedBytes, Fatal>)
    requires
        2 * pin@.len() <= isize::MAX,
        costs.tag_len <= isize::MAX,
        8 * costs.lanes <= u32::MAX,
        1024 * costs.mem_kib <= isize::MAX,
    ensures
        match r {
            Ok(hash) => costs.valid() && valid_inputs(le16s(pin@), salt@) && hash@ == hash_of(
                pin@,
                salt@,
                costs,
            ) && hash@.len() == costs.tag_len,
            Err(fatal) => if !costs.valid() {
                fatal@ == unexpected(Status(INVALID_PARAMETER))
            } else {
                !valid_inputs(le16s(pin@), salt@) && fatal@ == unexpected(Status(OUT_OF_RESOURCES))
            },
        },
{
    let bytes: ScrubbedBytes = pin_bytes(pin);
    if check_costs(costs.mem_kib, costs.passes, costs.lanes, costs.tag_len).is_err() {
        return Err(Fatal::from(Status(INVALID_PARAMETER)));
    }
    let mut derived = ScrubbedBytes::zeroed(costs.tag_len);
    let hashed = hash_into(
        bytes.as_slice(),
        salt,
        costs.mem_kib,
        costs.passes,
        costs.lanes,
        derived.as_mut_slice(),
    );
    match hashed {
        Ok(()) => Ok(derived),
        Err(_) => Err(Fatal::from(Status(OUT_OF_RESOURCES))),
    }
}

/// Derive the PIN hash at the cost of the PIN measurement.
pub fn derive_pin_hash(salt: &[u8], pin: &[u16]) -> (r: Result<ScrubbedBytes, Fatal>)
    requires
        2 * pin@.len() <= isize::MAX,
    ensures
        r is Ok <==> valid_inputs(le16s(pin@), salt@),
        r matches Ok(hash) ==> hash@ == pin_hash(pin@, salt@) && hash@.len() == PIN_HASH_LEN,
        r matches Ok(hash) ==> hash@ == argon2id(
            le16s(pin@),
            salt@,
            ARGON2_MEM_KIB,
            ARGON2_TIME,
            ARGON2_LANES,
            PIN_HASH_LEN as nat,
        ),
        r matches Err(fatal) ==> fatal@ == unexpected(Status(OUT_OF_RESOURCES)),
{
    let costs = Costs {
        mem_kib: ARGON2_MEM_KIB,
        passes: ARGON2_TIME,
        lanes: ARGON2_LANES,
        tag_len: PIN_HASH_LEN,
    };
    derive_hash(costs, salt, pin)
}

/// What the TPM is asked to extend into the PIN PCR.
pub struct ExtendRequest {
    /// The PCR to extend.
    pub pcr_index: u32,
    /// Type of the event log entry.
    pub event_type: u32,
    /// Text of the event log entry.
    pub event_text: Vec<u8>,
    /// `EFI_TCG2_EXTEND_ONLY`, or zero where the entry is to be recorded.
    pub flags: u64,
    /// The bytes to hash into the PCR.
    pub data: ScrubbedBytes,
}

/// [`ExtendRequest`] over sequences.
pub struct ExtendRequestView {
    pub pcr_index: u32,
    pub event_type: u32,
    pub event_text: Seq<u8>,
    pub flags: u64,
    pub data: Seq<u8>,
}

impl View for ExtendRequest {
    type V = ExtendRequestView;

    open spec fn view(&self) -> ExtendRequestView {
        ExtendRequestView {
            pcr_index: self.pcr_index,
            event_type: self.event_type,
            event_text: self.event_text@,
            flags: self.flags,
            data: self.data@,
        }
    }
}

/// The request to measure a PIN hash into the PIN PCR.
pub open spec fn request_for(hash: Seq<u8>, log_event: bool) -> ExtendRequestView {
    ExtendRequestView {
        pcr_index: PIN_PCR_INDEX,
        event_type: EFI_ACTION,
        event_text: EVENT_TEXT@,
        flags: if log_event {
            0
        } else {
            EFI_TCG2_EXTEND_ONLY
        },
        data: measured(hash),
    }
}

/// Build the request for a derived hash. `EFI_TCG2_EXTEND_ONLY` suppresses the
/// event-log entry; the PCR is extended either way.
pub fn extend_request(hash: &[u8], log_event: bool) -> (r: ExtendRequest)
    requires
        hash@.len() + 12 <= isize::MAX,
    ensures
        r@ == request_for(hash@, log_event),
        r.data@ == DOMAIN_PREFIX@ + le32(PIN_PCR_INDEX) + hash@,
{
    let mut data = ScrubbedBytes::with_limit(12 + hash.len());
    data.extend(DOMAIN_PREFIX.as_slice());
    let index: [u8; 4] = le32_bytes(PIN_PCR_INDEX);
    data.extend(index.as_slice());
    data.extend(hash);
    let mut event_text: Vec<u8> = Vec::new();
    event_text.extend_from_slice(EVENT_TEXT.as_slice());
    assert(event_text@ =~= EVENT_TEXT@);
    ExtendRequest {
        pcr_index: PIN_PCR_INDEX,
        event_type: EFI_ACTION,
        event_text,
        flags: if log_event {
            0
        } else {
            EFI_TCG2_EXTEND_ONLY
        },
        data,
    }
}

/// Build `"pinnacle" || pcr_index_le || argon2id(pin)` and the request to extend
/// it into the PIN PCR.
pub fn extend_pin_to_pcr(salt: &[u8], pin: &[u16], log_event: bool) -> (r: Result<
    ExtendRequest,
    Fatal,
>)
    requires
        2 * pin@.len() <= isize::MAX,
    ensures
        r is Ok <==> valid_inputs(le16s(pin@), salt@),
        r matches Ok(request) ==> request@ == request_for(
            pin_hash(pin@, salt@),
            log_event,
        ),
        r matches Err(fatal) ==> fatal@ == unexpected(Status(OUT_OF_RESOURCES)),
{
    match derive_pin_hash(salt, pin) {
        Ok(derived) => {
            let hash: &[u8] = derived.as_slice();
            Ok(extend_request(hash, log_event))
        },
        Err(fatal) => Err(fatal),
    }
}

/// Whether every byte is `value`.
pub open spec fn all_bytes(bytes: Seq<u8>, value: u8) -> bool {
    forall|i: int| 0 <= i < bytes.len() ==> bytes[i] == value
}

/// Whether a UUID distinguishes the machine: firmware that has none reports all
/// zeros or all `FF`.
pub open spec fn usable_uuid(uuid: Seq<u8>) -> bool {
    !all_bytes(uuid, 0) && !all_bytes(uuid, 0xff)
}

/// The Argon2id salt of a machine with the given SMBIOS system UUID.
pub open spec fn effective_salt(uuid: Option<[u8; 16]>) -> Seq<u8> {
    match uuid {
        Some(u) => if usable_uuid(u@) {
            u@
        } else {
            FALLBACK_SALT@
        },
        None => FALLBACK_SALT@,
    }
}

/// What is logged about the choice of the salt.
pub open spec fn salt_records(uuid: Option<[u8; 16]>) -> Seq<RecordView> {
    match uuid {
        None => seq![
            RecordView { level: Level::Error, message: "SMBIOS system UUID: <read failed>"@ },
            RecordView {
                level: Level::Warn,
                message: "SMBIOS system UUID not found, using fallback salt"@,
            },
        ],
        Some(u) => seq![
            RecordView { level: Level::Debug, message: "SMBIOS system UUID: "@ + hex(u@) },
        ] + (if usable_uuid(u@) {
            Seq::empty()
        } else {
            seq![
                RecordView {
                    level: Level::Warn,
                    message: "SMBIOS system UUID is trivial, using fallback salt"@,
                },
            ]
        }),
    }
}

pub(crate) fn all_equal(bytes: &[u8], value: u8) -> (r: bool)
    ensures
        r == all_bytes(bytes@, value),
{
    let mut i: usize = 0;
    while i < bytes.len()
        invariant
            i <= bytes.len(),
            all_bytes(bytes@.take(i as int), value),
        decreases bytes.len() - i,
    {
        if bytes[i] != value {
            return false;
        }
        i = i + 1;
        assert(bytes@.take(i as int) =~= bytes@.take(i - 1).push(value));
    }
    assert(bytes@.take(i as int) =~= bytes@);
    true
}

/// A salt, and what to log about it.
pub struct Salt {
    pub bytes: Vec<u8>,
    pub records: Vec<Record>,
}

/// The Argon2id salt for this machine: the SMBIOS system UUID when present and
/// usable, else `FALLBACK_SALT`. The salt is not secret.
pub fn pin_salt(uuid: Option<[u8; 16]>) -> (r: Salt)
    ensures
        r.bytes@ == effective_salt(uuid),
        records_view(r.records@) == salt_records(uuid),
{
    let mut bytes: Vec<u8> = Vec::new();
    let mut records: Vec<Record> = Vec::new();
    match uuid {
        None => {
            records.push(record(Level::Error, "SMBIOS system UUID: <read failed>"));
            records.push(
                record(Level::Warn, "SMBIOS system UUID not found, using fallback salt"),
            );
            bytes.extend_from_slice(FALLBACK_SALT.as_slice());
            assert(bytes@ =~= FALLBACK_SALT@);
        },
        Some(u) => {
            let mut message = String::new();
            message.append("SMBIOS system UUID: ");
            let digits: String = hex_text(u.as_slice());
            message.append(digits.as_str());
            assert(message@ =~= "SMBIOS system UUID: "@ + hex(u@));
            records.push(Record { level: Level::Debug, message });
            if all_equal(u.as_slice(), 0) || all_equal(u.as_slice(), 0xff) {
                records.push(
                    record(Level::Warn, "SMBIOS system UUID is trivial, using fallback salt"),
                );
                bytes.extend_from_slice(FALLBACK_SALT.as_slice());
                assert(bytes@ =~= FALLBACK_SALT@);
            } else {
                bytes.extend_from_slice(u.as_slice());
                assert(bytes@ =~= u@);
            }
        },
    }
    assert(records_view(records@) =~= salt_records(uuid));
    Salt { bytes, records }
}

/// Distinct PINs are distinct Argon2id passwords.
pub proof fn law_pins_are_distinct_passwords(a: Seq<u16>, b: Seq<u16>)
    requires
        a != b,
    ensures
        le16s(a) != le16s(b),
{
    if le16s(a) == le16s(b) {
        law_le16s_injective(a, b);
    }
}

/// Every measurement starts with the domain separator and the PCR index, so it
/// depends on nothing but the PIN hash, and it tells two hashes apart.
pub proof fn law_measurement_carries_only_the_hash(a: Seq<u8>, b: Seq<u8>)
    ensures
        measured(a).take(8) == DOMAIN_PREFIX@,
        measured(a).subrange(8, 12) == le32(PIN_PCR_INDEX),
        measured(a).skip(12) == a,
        measured(a) == measured(b) ==> a == b,
{
    assert(measured(a).take(8) =~= DOMAIN_PREFIX@);
    assert(measured(a).subrange(8, 12) =~= le32(PIN_PCR_INDEX));
    assert(measured(a).skip(12) =~= a);
    assert(measured(b).skip(12) =~= b);
}

/// On every machine, whatever UUID it reports, every PIN that the prompt can
/// accept has a hash: the cost parameters and the salt are in range.
pub proof fn law_every_pin_has_a_hash(uuid: Option<[u8; 16]>, pin: Seq<u16>)
    requires
        pin.len() <= 0x7fff_ffff,
    ensures
        valid_costs(ARGON2_MEM_KIB, ARGON2_TIME, ARGON2_LANES, PIN_HASH_LEN as nat),
        valid_inputs(le16s(pin), effective_salt(uuid)),
{
}

/// Machines with distinct usable UUIDs have distinct salts, and none of them has
/// the fallback salt.
pub proof fn law_usable_uuids_give_distinct_salts(a: [u8; 16], b: [u8; 16])
    requires
        usable_uuid(a@),
        usable_uuid(b@),
        a@ != b@,
    ensures
        effective_salt(Some(a)) != effective_salt(Some(b)),
        effective_salt(Some(a)) != effective_salt(None),
{
    assert(effective_salt(Some(a)).len() == 16 && effective_salt(None).len() == 23);
}

/// The hash of a PIN is the Argon2id tag whose password is the serialization of all its
/// code units, whose salt is the whole salt, and whose costs are those of the PIN
/// measurement: distinct PINs are distinct passwords of the hash in use.
pub proof fn law_pin_hash_takes_the_whole_pin(pin: Seq<u16>, salt: Seq<u8>)
    ensures
        pin_hash(pin, salt) == argon2id(le16s(pin), salt, 65536, 64, 1, 32),
        le16s(pin).len() == 2 * pin.len(),
        forall|i: int|
            0 <= i < pin.len() ==> #[trigger] pin[i] == le16s(pin)[2 * i] + 256 * le16s(pin)[2 * i
                + 1],
{
    assert forall|i: int| 0 <= i < pin.len() implies #[trigger] pin[i] == le16s(pin)[2 * i] + 256
        * le16s(pin)[2 * i + 1] by {
        law_le16s_adds_up(pin, i);
    }
}

/// At any cost, the hash takes the whole PIN, the whole salt and every parameter.
pub proof fn law_hash_takes_every_parameter(pin: Seq<u16>, salt: Seq<u8>, costs: Costs)
    ensures
        hash_of(pin, salt, costs) == argon2id(
            le16s(pin),
            salt,
            costs.mem_kib,
            costs.passes,
            costs.lanes,
            costs.tag_len as nat,
        ),
{
}

/// The request to extend a hash carries the domain separator, the PCR index and then
/// the hash itself, and nothing else. It goes to the PIN PCR, and is kept out of the
/// event log unless it is to be recorded.
pub proof fn law_request_carries_the_hash(hash: Seq<u8>, log_event: bool)
    ensures
        ({
            let request = request_for(hash, log_event);
            &&& request.pcr_index == PIN_PCR_INDEX
            &&& request.event_type == EFI_ACTION
            &&& request.event_text == EVENT_TEXT@
            &&& request.flags == (if log_event {
                0u64
            } else {
                EFI_TCG2_EXTEND_ONLY
            })
            &&& request.data.len() == 12 + hash.len()
            &&& request.data.take(8) == DOMAIN_PREFIX@
            &&& request.data.subrange(8, 12) == seq![15u8, 0u8, 0u8, 0u8]
            &&& request.data.skip(12) == hash
        }),
{
    let data = request_for(hash, log_event).data;
    assert(data.take(8) =~= DOMAIN_PREFIX@);
    assert(data.subrange(8, 12) =~= seq![15u8, 0u8, 0u8, 0u8]);
    assert(data.skip(12) =~= hash);
}

/// Requests for distinct hashes have distinct data.
pub proof fn law_requests_tell_hashes_apart(a: Seq<u8>, b: Seq<u8>, log_a: bool, log_b: bool)
    requires
        a != b,
    ensures
        request_for(a, log_a).data != request_for(b, log_b).data,
{
    law_request_carries_the_hash(a, log_a);
    law_request_carries_the_hash(b, log_b);
}

/// The salt is the whole UUID as soon as one of its bytes is not zero and one is not
/// `FF`; else, and without a UUID, it is the fallback salt.
pub proof fn law_salt_is_the_uuid_or_the_fallback(uuid: [u8; 16])
    ensures
        (exists|i: int| 0 <= i < 16 && uuid@[i] != 0) && (exists|i: int|
            0 <= i < 16 && uuid@[i] != 0xff) ==> effective_salt(Some(uuid)) == uuid@,
        (forall|i: int| 0 <= i < 16 ==> uuid@[i] == 0) || (forall|i: int|
            0 <= i < 16 ==> uuid@[i] == 0xff) ==> effective_salt(Some(uuid)) == FALLBACK_SALT@,
        effective_salt(None) == FALLBACK_SALT@,
{
    if exists|i: int| 0 <= i < 16 && uuid@[i] != 0 {
        let i = choose|i: int| 0 <= i < 16 && uuid@[i] != 0;
        assert(!all_bytes(uuid@, 0));
    }
    if exists|i: int| 0 <= i < 16 && uuid@[i] != 0xff {
        let i = choose|i: int| 0 <= i < 16 && uuid@[i] != 0xff;
        assert(!all_bytes(uuid@, 0xff));
    }
}

/// The UUID that was read is always logged in full; a warning follows exactly where the
/// fallback salt is used.
pub proof fn law_salt_records_tell_the_uuid(uuid: [u8; 16])
    ensures
        ({
            let lines = salt_records(Some(uuid));
            &&& lines.len() == (if effective_salt(Some(uuid)) == uuid@ {
                1int
            } else {
                2int
            })
            &&& lines[0].level == Level::Debug
            &&& lines[0].message == "SMBIOS system UUID: "@ + hex(uuid@)
            &&& lines.len() == 2 ==> lines[1] == (RecordView {
                level: Level::Warn,
                message: "SMBIOS system UUID is trivial, using fallback salt"@,
            })
        }),
        salt_records(None).len() == 2,
        salt_records(None)[0] == (RecordView {
            level: Level::Error,
            message: "SMBIOS system UUID: <read failed>"@,
        }),
        salt_records(None)[1] == (RecordView {
            level: Level::Warn,
            message: "SMBIOS system UUID not found, using fallback salt"@,
        }),
{
    assert(FALLBACK_SALT@.len() == 23 && uuid@.len() == 16);
}

/// A request is seen as it is.
pub proof fn law_request_view_keeps_everything(request: ExtendRequest)
    ensures
        request@.pcr_index == request.pcr_index,
        request@.event_type == request.event_type,
        request@.event_text == request.event_text@,
        request@.flags == request.flags,
        request@.data == request.data@,
{
}

/// The costs that Argon2 accepts: at least 8 KiB, and 8 for each lane, one pass, one
/// lane and no more than 24 bits of them, and a tag of 4 bytes up to 32 bits of length.
pub proof fn law_costs_have_bounds(costs: Costs)
    ensures
        costs.valid() <==> costs.mem_kib >= 8 && costs.mem_kib >= 8 * costs.lanes && costs.passes
            > 0 && 0 < costs.lanes < 0x100_0000 && 4 <= costs.tag_len < 0x1_0000_0000,
{
}

} // verus!
