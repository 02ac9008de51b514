//! Reading TPM PCR values. Used to assert the PIN PCR is clean before extending
//! and to debug-print it. The TCG2 protocol has no read-PCR call, so this speaks
//! raw `TPM2_PCR_Read`. The TPM wire format is big-endian.

use vstd::prelude::*;

use crate::bytes::be_number;
use crate::bytes::joined;
use crate::bytes::lemma_joined_first;
use crate::bytes::read_be16;
use crate::bytes::read_be32;
use crate::log::Fatal;
use crate::log::FatalView;
use crate::log::Level;
use crate::log::Record;
use crate::log::RecordView;
use crate::log::enabled;
use crate::log::level_enabled;
use crate::log::records_view;
use crate::measure::PIN_PCR_INDEX;
use crate::measure::all_bytes;
use crate::measure::all_equal;
use crate::status::DEVICE_ERROR;
use crate::status::SECURITY_VIOLATION;
use crate::status::Status;
use crate::text::decimal;
use crate::text::hex;
use crate::text::hex_text;
use crate::text::padded;
use crate::text::push_padded;

verus! {

/// Length of the buffer for the response to a PCR read.
pub const RESPONSE_LEN: usize = 128;

/// How many PCRs a selection of three bytes covers.
pub const PCR_COUNT: u32 = 24;

/// The selection of a single PCR: a little bitmap where PCR n is bit (n % 8) of
/// byte (n / 8).
pub open spec fn pcr_select(index: u32) -> Seq<u8> {
    Seq::new(
        3,
        |i: int|
            if i == index / 8 {
                1u8 << (index % 8)
            } else {
                0u8
            },
    )
}

/// The `TPM2_PCR_Read` command for one PCR of the SHA-256 bank.
pub open spec fn read_command_bytes(index: u32) -> Seq<u8> {
    let tag_no_sessions = seq![0x80u8, 0x01u8];
    let size = seq![0x00u8, 0x00u8, 0x00u8, 0x14u8];
    let command_pcr_read = seq![0x00u8, 0x00u8, 0x01u8, 0x7eu8];
    let selection_count = seq![0x00u8, 0x00u8, 0x00u8, 0x01u8];
    let hash_sha256 = seq![0x00u8, 0x0bu8];
    let size_of_select = seq![0x03u8];
    tag_no_sessions + size + command_pcr_read + selection_count + hash_sha256 + size_of_select
        + pcr_select(index)
}

/// Build the `TPM2_PCR_Read` command for one PCR of the SHA-256 bank. There is none
/// for an index outside of the three-byte selection.
pub fn read_command(index: u32) -> (r: Option<[u8; 20]>)
    ensures
        match r {
            Some(command) => index < PCR_COUNT && command@ == read_command_bytes(index),
            None => index >= PCR_COUNT,
        },
{
    if index >= PCR_COUNT {
        return None;
    }
    let bit: u8 = 1u8 << (index % 8);
    let byte: u32 = index / 8;
    let command: [u8; 20] = [
        0x80,
        0x01,
        0x00,
        0x00,
        0x00,
        0x14,
        0x00,
        0x00,
        0x01,
        0x7e,
        0x00,
        0x00,
        0x00,
        0x01,
        0x00,
        0x0b,
        0x03,
        if byte == 0 {
            bit
        } else {
            0
        },
        if byte == 1 {
            bit
        } else {
            0
        },
        if byte == 2 {
            bit
        } else {
            0
        },
    ];
    assert(command@ =~= read_command_bytes(index));
    Some(command)
}

/// The place behind `count` selections that start at `off`, each of them a hash (2
/// bytes), the size of its bitmap (1 byte) and the bitmap. `None` where the response
/// ends before that.
pub open spec fn selections_end(response: Seq<u8>, off: int, count: nat) -> Option<int>
    decreases count,
{
    if count == 0 {
        Some(off)
    } else if off + 2 >= response.len() {
        None
    } else {
        selections_end(response, off + 3 + response[off + 2], (count - 1) as nat)
    }
}

/// The SHA-256 digest that a response to a PCR read carries: the first of the
/// digests behind the selections. `None` for an error response, for one without a
/// digest of 32 bytes, and for one that ends too early.
pub open spec fn response_digest(response: Seq<u8>) -> Option<Seq<u8>> {
    if response.len() < 18 || be_number(response, 6, 4) != 0 {
        None
    } else {
        match selections_end(response, 18, be_number(response, 14, 4)) {
            None => None,
            Some(off) => if off + 38 <= response.len() && be_number(response, off, 4) >= 1
                && be_number(response, off + 4, 2) == 32 {
                Some(response.subrange(off + 6, off + 38))
            } else {
                None
            },
        }
    }
}

fn skip_selections(response: &[u8; 128], from: usize, count: u32) -> (r: Option<usize>)
    requires
        from <= RESPONSE_LEN,
    ensures
        match r {
            Some(off) => selections_end(response@, from as int, count as nat) == Some(off as int)
                && off <= RESPONSE_LEN + 0x200,
            None => selections_end(response@, from as int, count as nat) is None,
        },
{
    let mut off: usize = from;
    let mut left: u32 = count;
    while left > 0
        invariant
            off <= RESPONSE_LEN + 0x200,
            selections_end(response@, from as int, count as nat) == selections_end(
                response@,
                off as int,
                left as nat,
            ),
        decreases left,
    {
        if off + 2 >= RESPONSE_LEN {
            return None;
        }
        off = off + 3 + response[off + 2] as usize;
        left = left - 1;
    }
    Some(off)
}

/// Read the SHA-256 bank value of a PCR from the response to a PCR read, `None`
/// where the TPM did not answer. Returns `None` on any protocol or parse error.
pub fn read_sha256(response: Option<[u8; 128]>) -> (r: Option<[u8; 32]>)
    ensures
        match r {
            Some(value) => response is Some && response_digest(response->0@) == Some(value@),
            None => response is None || response_digest(response->0@) is None,
        },
{
    let resp: [u8; 128] = match response {
        Some(bytes) => bytes,
        None => {
            return None;
        },
    };
    // Response: tag(2) size(4) responseCode(4) pcrUpdateCounter(4)
    //   pcrSelectionOut: count(4) then [hash(2) sizeofSelect(1) select(n)]...
    //   pcrValues: count(4) then [size(2) digest(size)]...
    let code: u32 = read_be32(resp.as_slice(), 6);
    if code != 0 {
        return None;
    }
    let selections: u32 = read_be32(resp.as_slice(), 14);
    let off: usize = match skip_selections(&resp, 18, selections) {
        Some(end) => end,
        None => {
            return None;
        },
    };
    if off + 38 > RESPONSE_LEN {
        return None;
    }
    let digests: u32 = read_be32(resp.as_slice(), off);
    let size: u16 = read_be16(resp.as_slice(), off + 4);
    if digests < 1 || size != 32 {
        return None;
    }
    Some(digest_at(&resp, off + 6))
}

fn digest_at(response: &[u8; 128], at: usize) -> (digest: [u8; 32])
    requires
        at + 32 <= RESPONSE_LEN,
    ensures
        digest@ == response@.subrange(at as int, at + 32),
{
    let mut digest: [u8; 32] = [0;32];
    let mut i: usize = 0;
    while i < 32
        invariant
            i <= 32,
            at + 32 <= RESPONSE_LEN,
            forall|j: int| 0 <= j < i ==> digest@[j] == response@[at + j],
        decreases 32 - i,
    {
        digest[i] = response[at + i];
        i = i + 1;
    }
    assert(digest@ =~= response@.subrange(at as int, at + 32));
    digest
}

/// The name of the PIN PCR in messages.
pub open spec fn pcr_label() -> Seq<char> {
    "PCR["@ + padded(PIN_PCR_INDEX as nat, 1) + "]"@
}

/// How the value of the PIN PCR is logged.
pub open spec fn value_record(value: Seq<u8>) -> RecordView {
    RecordView { level: Level::Debug, message: pcr_label() + ": "@ + hex(value) }
}

/// Why the boot stops at a PCR with the given value, if it does: only an all-zero
/// PCR is clean.
pub open spec fn clean_failure(value: Option<Seq<u8>>) -> Option<FatalView> {
    match value {
        None => Some(
            FatalView {
                status: Status(DEVICE_ERROR),
                message: "could not read "@ + pcr_label() + ", the TPM may be faulty"@,
            },
        ),
        Some(bytes) => if all_bytes(bytes, 0) {
            None
        } else {
            Some(
                FatalView {
                    status: Status(SECURITY_VIOLATION),
                    message: pcr_label()
                        + " already extended, did a boot loop re-enter pinnacle?"@,
                },
            )
        },
    }
}

pub(crate) fn push_label(text: &mut String)
    ensures
        final(text)@ == old(text)@ + pcr_label(),
{
    text.append("PCR[");
    push_padded(text, PIN_PCR_INDEX, 1);
    text.append("]");
    assert(text@ =~= old(text)@ + pcr_label());
}

fn value_line(value: &[u8; 32]) -> (r: Record)
    ensures
        r@ == value_record(value@),
{
    let mut message = String::new();
    push_label(&mut message);
    message.append(": ");
    let digits: String = hex_text(value.as_slice());
    message.append(digits.as_str());
    assert(message@ =~= pcr_label() + ": "@ + hex(value@));
    Record { level: Level::Debug, message }
}

/// The verdict on the PIN PCR, and what to log before it.
pub struct PcrCheck {
    pub records: Vec<Record>,
    pub outcome: Result<(), Fatal>,
}

/// The bytes of a PCR value.
pub open spec fn value_bytes(value: Option<[u8; 32]>) -> Option<Seq<u8>> {
    match value {
        Some(bytes) => Some(bytes@),
        None => None,
    }
}

/// What is logged of the value that was read before the prompt.
pub open spec fn clean_records(value: Option<Seq<u8>>) -> Seq<RecordView> {
    match value {
        Some(bytes) => seq![value_record(bytes)],
        None => Seq::empty(),
    }
}

/// Fail unless the PIN PCR reads all-zero, used to abort on boot loops and other
/// interjections.
pub fn assert_clean(value: Option<[u8; 32]>) -> (r: PcrCheck)
    ensures
        records_view(r.records@) == clean_records(value_bytes(value)),
        match r.outcome {
            Ok(()) => clean_failure(value_bytes(value)) is None,
            Err(fatal) => clean_failure(value_bytes(value)) == Some(fatal@),
        },
        r.outcome is Ok <==> value is Some && forall|i: int|
            0 <= i < 32 ==> #[trigger] value->0@[i] == 0,
{
    let mut records: Vec<Record> = Vec::new();
    let bytes: [u8; 32] = match value {
        Some(v) => v,
        None => {
            let mut message = String::new();
            message.append("could not read ");
            push_label(&mut message);
            message.append(", the TPM may be faulty");
            assert(message@ =~= "could not read "@ + pcr_label() + ", the TPM may be faulty"@);
            assert(records_view(records@) =~= Seq::empty());
            return PcrCheck { records, outcome: Err(Fatal::new(Status(DEVICE_ERROR), message)) };
        },
    };
    records.push(value_line(&bytes));
    assert(records_view(records@) =~= clean_records(value_bytes(value)));
    if !all_equal(bytes.as_slice(), 0) {
        let mut message = String::new();
        push_label(&mut message);
        message.append(" already extended, did a boot loop re-enter pinnacle?");
        assert(message@ =~= pcr_label()
            + " already extended, did a boot loop re-enter pinnacle?"@);
        return PcrCheck { records, outcome: Err(Fatal::new(Status(SECURITY_VIOLATION), message)) };
    }
    PcrCheck { records, outcome: Ok(()) }
}

/// How the value of the PIN PCR is logged after extending.
pub open spec fn debug_record(value: Option<Seq<u8>>) -> RecordView {
    match value {
        Some(bytes) => value_record(bytes),
        None => RecordView { level: Level::Error, message: pcr_label() + ": <read failed>"@ },
    }
}

/// Debug-print the SHA-256 value of the PIN PCR. Gated on the debug level; the
/// caller skips the extra TPM round-trip entirely when debug logging is off.
pub fn debug(value: Option<[u8; 32]>) -> (r: Option<Record>)
    ensures
        match r {
            Some(line) => level_enabled(Level::Debug) && line@ == debug_record(value_bytes(value)),
            None => !level_enabled(Level::Debug),
        },
{
    if !enabled(Level::Debug) {
        return None;
    }
    match value {
        Some(v) => Some(value_line(&v)),
        None => {
            let mut message = String::new();
            push_label(&mut message);
            message.append(": <read failed>");
            assert(message@ =~= pcr_label() + ": <read failed>"@);
            Some(Record { level: Level::Error, message })
        },
    }
}

/// Whether a selection covers the PCR `n`.
pub open spec fn selects(select: Seq<u8>, n: u32) -> bool {
    (select[n as int / 8] >> (n % 8)) & 1 == 1
}

/// The command to read a PCR selects that PCR and no other.
pub proof fn law_command_selects_one_pcr(index: u32, n: u32)
    requires
        index < PCR_COUNT,
        n < PCR_COUNT,
    ensures
        read_command_bytes(index).len() == 20,
        selects(read_command_bytes(index).skip(17), n) <==> n == index,
{
    let select = read_command_bytes(index).skip(17);
    assert(select =~= pcr_select(index));
    let a: u32 = index % 8;
    let b: u32 = n % 8;
    assert(((1u8 << a) >> b) & 1 == 1 <==> a == b) by (bit_vector)
        requires
            a < 8,
            b < 8,
    ;
    assert((0u8 >> b) & 1 != 1) by (bit_vector);
}

/// One selection of a response: a hash, the size of the bitmap, and the bitmap.
pub open spec fn is_selection(bytes: Seq<u8>) -> bool {
    bytes.len() >= 3 && bytes.len() == 3 + bytes[2]
}

proof fn lemma_selections_end(before: Seq<u8>, selections: Seq<Seq<u8>>, behind: Seq<u8>)
    requires
        forall|i: int| 0 <= i < selections.len() ==> is_selection(#[trigger] selections[i]),
    ensures
        selections_end(
            before + joined(selections) + behind,
            before.len() as int,
            selections.len(),
        ) == Some((before.len() + joined(selections).len()) as int),
    decreases selections.len(),
{
    let all = before + joined(selections) + behind;
    if selections.len() > 0 {
        let first = selections[0];
        let rest = selections.drop_first();
        lemma_joined_first(selections);
        assert(is_selection(first));
        assert(all =~= (before + first) + joined(rest) + behind);
        assert(all[before.len() + 2int] == first[2]);
        assert forall|i: int| 0 <= i < rest.len() implies is_selection(#[trigger] rest[i]) by {
            assert(rest[i] == selections[i + 1]);
        }
        lemma_selections_end(before + first, rest, behind);
    }
}

proof fn lemma_be_number_within(before: Seq<u8>, bytes: Seq<u8>, behind: Seq<u8>, width: nat)
    requires
        width <= bytes.len(),
    ensures
        be_number(before + bytes + behind, before.len() as int, width) == be_number(
            bytes,
            0,
            width,
        ),
    decreases width,
{
    if width > 0 {
        lemma_be_number_within(before, bytes, behind, (width - 1) as nat);
    }
}

/// The digest is read back from every successful response that carries it, whatever
/// the tag, the size, the counter and the selections are, and whatever comes behind.
pub proof fn law_digest_is_read_back(
    tag_and_size: Seq<u8>,
    code: Seq<u8>,
    counter: Seq<u8>,
    selection_count: Seq<u8>,
    selections: Seq<Seq<u8>>,
    digest_count: Seq<u8>,
    size: Seq<u8>,
    digest: Seq<u8>,
    behind: Seq<u8>,
)
    requires
        tag_and_size.len() == 6,
        code.len() == 4 && be_number(code, 0, 4) == 0,
        counter.len() == 4,
        selection_count.len() == 4 && be_number(selection_count, 0, 4) == selections.len(),
        forall|i: int| 0 <= i < selections.len() ==> is_selection(#[trigger] selections[i]),
        digest_count.len() == 4 && be_number(digest_count, 0, 4) >= 1,
        size.len() == 2 && be_number(size, 0, 2) == 32,
        digest.len() == 32,
    ensures
        response_digest(
            tag_and_size + code + counter + selection_count + joined(selections) + digest_count
                + size + digest + behind,
        ) == Some(digest),
{
    let head = tag_and_size + code + counter + selection_count;
    let tail = digest_count + size + digest + behind;
    let all = tag_and_size + code + counter + selection_count + joined(selections) + digest_count
        + size + digest + behind;
    let off = (head.len() + joined(selections).len()) as int;
    assert(all =~= tag_and_size + code + (counter + selection_count + joined(selections) + tail));
    lemma_be_number_within(
        tag_and_size,
        code,
        counter + selection_count + joined(selections) + tail,
        4,
    );
    assert(all =~= (tag_and_size + code + counter) + selection_count + (joined(selections) + tail));
    lemma_be_number_within(
        tag_and_size + code + counter,
        selection_count,
        joined(selections) + tail,
        4,
    );
    assert(all =~= head + joined(selections) + tail);
    lemma_selections_end(head, selections, tail);
    assert(all =~= (head + joined(selections)) + digest_count + (size + digest + behind));
    lemma_be_number_within(head + joined(selections), digest_count, size + digest + behind, 4);
    assert(all =~= (head + joined(selections) + digest_count) + size + (digest + behind));
    lemma_be_number_within(head + joined(selections) + digest_count, size, digest + behind, 2);
    assert(all.subrange(off + 6, off + 38) =~= digest);
}

/// The command is the same for every PCR but for the three bytes of its selection.
pub proof fn law_command_header_is_fixed(index: u32)
    ensures
        read_command_bytes(index).take(17) == seq![
            0x80u8,
            0x01u8,
            0x00u8,
            0x00u8,
            0x00u8,
            0x14u8,
            0x00u8,
            0x00u8,
            0x01u8,
            0x7eu8,
            0x00u8,
            0x00u8,
            0x00u8,
            0x01u8,
            0x00u8,
            0x0bu8,
            0x03u8,
        ],
{
    assert(read_command_bytes(index).take(17) =~= seq![
        0x80u8,
        0x01u8,
        0x00u8,
        0x00u8,
        0x00u8,
        0x14u8,
        0x00u8,
        0x00u8,
        0x01u8,
        0x7eu8,
        0x00u8,
        0x00u8,
        0x00u8,
        0x01u8,
        0x00u8,
        0x0bu8,
        0x03u8,
    ]);
}

/// Whether a response is a successful one whose selections are the given ones, and
/// whose first digest, of 32 bytes, is the given one.
pub open spec fn carries(
    response: Seq<u8>,
    selections: Seq<Seq<u8>>,
    tail: Seq<u8>,
    digest: Seq<u8>,
) -> bool {
    &&& response.len() >= 18
    &&& response == response.take(18) + joined(selections) + tail
    &&& response[6] == 0 && response[7] == 0 && response[8] == 0 && response[9] == 0
    &&& selections.len() == 16777216 * response[14] + 65536 * response[15] + 256 * response[16]
        + response[17]
    &&& forall|i: int| 0 <= i < selections.len() ==> is_selection(#[trigger] selections[i])
    &&& tail.len() >= 38
    &&& tail[0] != 0 || tail[1] != 0 || tail[2] != 0 || tail[3] != 0
    &&& tail[4] == 0 && tail[5] == 32
    &&& digest == tail.subrange(6, 38)
}

proof fn lemma_selections_grow(response: Seq<u8>, off: int, count: nat)
    ensures
        selections_end(response, off, count) matches Some(end) ==> end >= off,
    decreases count,
{
    if count > 0 && off + 2 < response.len() {
        lemma_selections_grow(response, off + 3 + response[off + 2], (count - 1) as nat);
    }
}

proof fn lemma_selections_found(response: Seq<u8>, off: int, count: nat) -> (selections: Seq<
    Seq<u8>,
>)
    requires
        0 <= off,
        selections_end(response, off, count) is Some,
        selections_end(response, off, count)->0 <= response.len(),
    ensures
        selections.len() == count,
        forall|i: int| 0 <= i < selections.len() ==> is_selection(#[trigger] selections[i]),
        response.subrange(off, selections_end(response, off, count)->0) == joined(selections),
    decreases count,
{
    let end = selections_end(response, off, count)->0;
    if count == 0 {
        let none = Seq::<Seq<u8>>::empty();
        assert(response.subrange(off, end) =~= joined(none));
        none
    } else {
        let next = off + 3 + response[off + 2];
        lemma_selections_grow(response, next, (count - 1) as nat);
        let rest = lemma_selections_found(response, next, (count - 1) as nat);
        let first = response.subrange(off, next);
        let all = seq![first] + rest;
        assert(is_selection(first));
        assert forall|i: int| 0 <= i < all.len() implies is_selection(#[trigger] all[i]) by {
            if i > 0 {
                assert(all[i] == rest[i - 1]);
            }
        }
        lemma_joined_first(all);
        assert(all.drop_first() =~= rest);
        assert(response.subrange(off, end) =~= first + response.subrange(next, end));
        all
    }
}

/// A digest is read from a response exactly if the response carries it: behind all the
/// selections that it counts, however many and however long they are.
pub proof fn law_digest_is_read_iff_carried(response: Seq<u8>, digest: Seq<u8>)
    ensures
        response_digest(response) == Some(digest) <==> exists|
            selections: Seq<Seq<u8>>,
            tail: Seq<u8>,
        | #[trigger] carries(response, selections, tail, digest),
{
    reveal_with_fuel(be_number, 5);
    if response_digest(response) == Some(digest) {
        let count = be_number(response, 14, 4);
        let off = selections_end(response, 18, count)->0;
        lemma_selections_grow(response, 18, count);
        let selections = lemma_selections_found(response, 18, count);
        let tail = response.skip(off);
        assert(response =~= response.take(18) + response.subrange(18, off) + tail);
        assert(digest =~= tail.subrange(6, 38));
        assert(carries(response, selections, tail, digest));
    }
    if exists|selections: Seq<Seq<u8>>, tail: Seq<u8>|
        #[trigger] carries(response, selections, tail, digest) {
        let (selections, tail) = choose|selections: Seq<Seq<u8>>, tail: Seq<u8>|
            #[trigger] carries(response, selections, tail, digest);
        let head = response.take(18);
        lemma_selections_end(head, selections, tail);
        let off = (18 + joined(selections).len()) as int;
        assert(response.len() == 18 + joined(selections).len() + tail.len());
        assert(forall|i: int| 0 <= i < tail.len() ==> response[off + i] == #[trigger] tail[i]);
        assert(response[off] == tail[0] && response[off + 1] == tail[1] && response[off + 2]
            == tail[2] && response[off + 3] == tail[3] && response[off + 4] == tail[4]
            && response[off + 5] == tail[5]);
        assert(response.subrange(off + 6, off + 38) =~= tail.subrange(6, 38));
        assert(selections_end(response, 18, selections.len()) == Some(off));
        assert(response_digest(response) == Some(digest));
    }
}

/// Only a value all of whose bytes are zero is clean. What is said otherwise does not
/// depend on which byte is not.
pub proof fn law_clean_means_every_byte_is_zero(value: Seq<u8>)
    ensures
        clean_failure(Some(value)) is None <==> forall|i: int|
            0 <= i < value.len() ==> #[trigger] value[i] == 0,
        clean_failure(Some(value)) matches Some(fatal) ==> fatal.status == Status(
            SECURITY_VIOLATION,
        ) && fatal.message == "PCR[15]"@
            + " already extended, did a boot loop re-enter pinnacle?"@,
        clean_failure(None) matches Some(fatal) && fatal.status == Status(DEVICE_ERROR)
            && fatal.message == "could not read "@ + "PCR[15]"@ + ", the TPM may be faulty"@,
{
    lemma_label();
}

proof fn lemma_label()
    ensures
        pcr_label() == "PCR[15]"@,
{
    reveal_strlit("PCR[");
    reveal_strlit("]");
    reveal_strlit("PCR[15]");
    reveal_with_fuel(decimal, 3);
    assert(pcr_label() =~= "PCR[15]"@);
}

/// Whatever value the PCR has, it is logged in full, before and after extending.
pub proof fn law_value_is_logged_in_full(value: Seq<u8>)
    ensures
        clean_records(Some(value)) == seq![
            RecordView { level: Level::Debug, message: "PCR[15]"@ + ": "@ + hex(value) },
        ],
        clean_records(None).len() == 0,
        debug_record(Some(value)) == (RecordView {
            level: Level::Debug,
            message: "PCR[15]"@ + ": "@ + hex(value),
        }),
        debug_record(None) == (RecordView {
            level: Level::Error,
            message: "PCR[15]"@ + ": <read failed>"@,
        }),
{
    lemma_label();
}

/// A PCR value is seen as its bytes.
pub proof fn law_value_bytes_are_the_value(value: [u8; 32])
    ensures
        value_bytes(Some(value)) == Some(value@),
        value_bytes(None) is None,
{
}

} // verus!
