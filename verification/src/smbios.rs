//! The SMBIOS system UUID: finding the structure table through the UEFI
//! configuration table, and the system information structure in it.

use vstd::prelude::*;

use crate::bootentry::same_bytes;
use crate::bytes::joined;
use crate::bytes::law_le_numbers_add_up;
use crate::bytes::le_number;
use crate::bytes::lemma_joined_first;
use crate::bytes::read_le16;
use crate::bytes::read_le32;
use crate::bytes::read_le64;

verus! {

/// GUID of the configuration table entry for the 64-bit (SMBIOS 3) entry point, as
/// bytes.
pub const SMBIOS3_GUID: [u8; 16] = [
    0x44,
    0x15,
    0xfd,
    0xf2,
    0x94,
    0x97,
    0x2c,
    0x4a,
    0x99,
    0x2e,
    0xe5,
    0xbb,
    0xcf,
    0x20,
    0xe3,
    0x94,
];

/// GUID of the configuration table entry for the 32-bit entry point, as bytes.
pub const SMBIOS_GUID: [u8; 16] = [
    0x31,
    0x2d,
    0x9d,
    0xeb,
    0x88,
    0x2d,
    0xd3,
    0x11,
    0x9a,
    0x16,
    0x00,
    0x90,
    0x27,
    0x3f,
    0xc1,
    0x4d,
];

/// Type of the system information structure.
pub const TYPE_SYSTEM: u8 = 1;

/// Type of the structure that ends the table.
pub const TYPE_END: u8 = 0x7f;

/// Where the UUID starts in the system information structure.
pub const UUID_OFFSET: usize = 0x08;

/// Where the UUID ends in the system information structure.
pub const UUID_END: usize = 0x18;

/// The layout of an entry point.
#[derive(Clone, Copy, PartialEq, Eq, Structural, Debug)]
pub enum EntryPoint {
    /// The 32-bit entry point.
    Bits32,
    /// The 64-bit (SMBIOS 3) entry point.
    Bits64,
}

impl EntryPoint {
    /// How many bytes of the entry point are read.
    pub open spec fn read_len(self) -> nat {
        match self {
            EntryPoint::Bits32 => 0x1c,
            EntryPoint::Bits64 => 0x18,
        }
    }

    /// How many bytes of the entry point are read.
    pub fn len(self) -> (n: usize)
        ensures
            n == self.read_len(),
    {
        match self {
            EntryPoint::Bits32 => 0x1c,
            EntryPoint::Bits64 => 0x18,
        }
    }
}

/// The first place from `from` on that holds the given GUID.
pub open spec fn find_guid(guids: Seq<[u8; 16]>, guid: Seq<u8>, from: int) -> Option<int>
    decreases guids.len() - from,
{
    if from < 0 || from >= guids.len() {
        None
    } else if guids[from]@ == guid {
        Some(from)
    } else {
        find_guid(guids, guid, from + 1)
    }
}

/// Which configuration table entry leads to the SMBIOS tables: the 64-bit entry
/// point is preferred over the 32-bit one.
pub open spec fn smbios_entry(guids: Seq<[u8; 16]>) -> Option<(EntryPoint, int)> {
    match (find_guid(guids, SMBIOS3_GUID@, 0), find_guid(guids, SMBIOS_GUID@, 0)) {
        (Some(i), _) => Some((EntryPoint::Bits64, i)),
        (None, Some(i)) => Some((EntryPoint::Bits32, i)),
        (None, None) => None,
    }
}

/// Whether the GUID stands at `i`, and nowhere before.
pub open spec fn first_at(guids: Seq<[u8; 16]>, guid: Seq<u8>, i: int) -> bool {
    &&& 0 <= i < guids.len()
    &&& guids[i]@ == guid
    &&& forall|j: int| 0 <= j < i ==> (#[trigger] guids[j])@ != guid
}

proof fn lemma_find_guid(guids: Seq<[u8; 16]>, guid: Seq<u8>, from: int)
    requires
        0 <= from <= guids.len(),
    ensures
        match find_guid(guids, guid, from) {
            Some(i) => from <= i < guids.len() && guids[i]@ == guid && forall|j: int|
                from <= j < i ==> (#[trigger] guids[j])@ != guid,
            None => forall|j: int| from <= j < guids.len() ==> (#[trigger] guids[j])@ != guid,
        },
    decreases guids.len() - from,
{
    if from < guids.len() && guids[from]@ != guid {
        lemma_find_guid(guids, guid, from + 1);
    }
}

fn position(guids: &[[u8; 16]], guid: &[u8; 16]) -> (r: Option<usize>)
    ensures
        match r {
            Some(i) => i < guids@.len() && find_guid(guids@, guid@, 0) == Some(i as int),
            None => find_guid(guids@, guid@, 0) is None,
        },
{
    let mut i: usize = 0;
    while i < guids.len()
        invariant
            i <= guids.len(),
            find_guid(guids@, guid@, 0) == find_guid(guids@, guid@, i as int),
        decreases guids.len() - i,
    {
        if same_bytes(guids[i].as_slice(), guid.as_slice()) {
            return Some(i);
        }
        i = i + 1;
    }
    None
}

/// Locate the SMBIOS entry point among the GUIDs of the UEFI configuration table,
/// preferring the 64-bit (SMBIOS 3) entry point over the 32-bit one.
pub fn locate_smbios(guids: &[[u8; 16]]) -> (r: Option<(EntryPoint, usize)>)
    ensures
        match r {
            Some((kind, i)) => i < guids@.len() && smbios_entry(guids@) == Some((kind, i as int)),
            None => smbios_entry(guids@) is None,
        },
        match r {
            Some((EntryPoint::Bits64, i)) => first_at(guids@, SMBIOS3_GUID@, i as int),
            Some((EntryPoint::Bits32, i)) => first_at(guids@, SMBIOS_GUID@, i as int)
                && forall|j: int|
                0 <= j < guids@.len() ==> (#[trigger] guids@[j])@ != SMBIOS3_GUID@,
            None => forall|j: int|
                0 <= j < guids@.len() ==> (#[trigger] guids@[j])@ != SMBIOS3_GUID@ && guids@[j]@
                    != SMBIOS_GUID@,
        },
{
    proof {
        lemma_find_guid(guids@, SMBIOS3_GUID@, 0);
        lemma_find_guid(guids@, SMBIOS_GUID@, 0);
    }
    match position(guids, &SMBIOS3_GUID) {
        Some(i) => Some((EntryPoint::Bits64, i)),
        None => match position(guids, &SMBIOS_GUID) {
            Some(i) => Some((EntryPoint::Bits32, i)),
            None => None,
        },
    }
}

/// Where the structure table lies in memory.
#[derive(Clone, Copy, PartialEq, Eq, Structural, Debug)]
pub struct Region {
    pub address: u64,
    pub size: u64,
}

/// The address and the size of the structure table that an entry point gives.
pub open spec fn region_of(kind: EntryPoint, entry: Seq<u8>) -> (nat, nat) {
    match kind {
        EntryPoint::Bits32 => (le_number(entry, 0x18, 4), le_number(entry, 0x16, 2)),
        EntryPoint::Bits64 => (le_number(entry, 0x10, 8), le_number(entry, 0x0c, 4)),
    }
}

/// Read the `(address, size)` of the structure table from the bytes of an entry
/// point. There is none at address zero or of size zero.
pub fn structure_table(kind: EntryPoint, entry: &[u8]) -> (r: Option<Region>)
    requires
        entry@.len() >= kind.read_len(),
    ensures
        match r {
            Some(region) => (region.address as nat, region.size as nat) == region_of(kind, entry@)
                && region.address != 0 && region.size != 0,
            None => region_of(kind, entry@).0 == 0 || region_of(kind, entry@).1 == 0,
        },
{
    let region = match kind {
        EntryPoint::Bits32 => Region {
            address: read_le32(entry, 0x18) as u64,
            size: read_le16(entry, 0x16) as u64,
        },
        EntryPoint::Bits64 => Region {
            address: read_le64(entry, 0x10),
            size: read_le32(entry, 0x0c) as u64,
        },
    };
    if region.address == 0 || region.size == 0 {
        None
    } else {
        Some(region)
    }
}

/// Whether two NUL bytes, which end a set of strings, stand at `at`.
pub open spec fn double_nul(table: Seq<u8>, at: int) -> bool {
    0 <= at && at + 1 < table.len() && table[at] == 0 && table[at + 1] == 0
}

/// The place behind the first double NUL from `from` on, or behind the table where
/// there is none.
pub open spec fn strings_end(table: Seq<u8>, from: int) -> int
    decreases table.len() - from,
{
    if from + 1 >= table.len() {
        from + 2
    } else if double_nul(table, from) {
        from + 2
    } else {
        strings_end(table, from + 1)
    }
}

/// The UUID of the first system information structure from `off` on that has one.
/// The walk stops at the end-of-table structure and at a corrupt one.
pub open spec fn uuid_from(table: Seq<u8>, off: int) -> Option<Seq<u8>>
    decreases table.len() - off,
{
    if off < 0 || off + 4 > table.len() || table[off + 1] < 4 || off + table[off + 1]
        > table.len() || table[off] == TYPE_END {
        None
    } else if table[off] == TYPE_SYSTEM && table[off + 1] >= UUID_END {
        Some(table.subrange(off + UUID_OFFSET, off + UUID_END))
    } else if strings_end(table, off + table[off + 1]) > table.len() {
        None
    } else {
        proof {
            lemma_strings_have_an_end(table, off + table[off + 1]);
        }
        uuid_from(table, strings_end(table, off + table[off + 1]))
    }
}

/// A set of strings takes at least the double NUL that ends it.
pub proof fn lemma_strings_have_an_end(table: Seq<u8>, from: int)
    ensures
        strings_end(table, from) >= from + 2,
    decreases table.len() - from,
{
    if from + 1 < table.len() && !double_nul(table, from) {
        lemma_strings_have_an_end(table, from + 1);
    }
}

fn skip_strings(table: &[u8], from: usize) -> (r: Option<usize>)
    requires
        from <= table@.len(),
    ensures
        match r {
            Some(end) => end == strings_end(table@, from as int) && from < end <= table@.len(),
            None => strings_end(table@, from as int) > table@.len(),
        },
{
    let len: usize = table.len();
    let mut end: usize = from;
    while end < len && end + 1 < len && !(table[end] == 0 && table[end + 1] == 0)
        invariant
            from <= end <= len,
            len == table@.len(),
            len == table.len(),
            strings_end(table@, from as int) == strings_end(table@, end as int),
        decreases len - end,
    {
        end = end + 1;
    }
    if end < len && end + 1 < len {
        Some(end + 2)
    } else {
        None
    }
}

/// Read the SMBIOS system UUID (Type 1 structure, 16 bytes at offset 0x08) from the
/// structure table. Returns `None` only when the Type 1 structure is absent or the
/// table is corrupt before it.
pub fn read_smbios_uuid(table: &[u8]) -> (r: Option<[u8; 16]>)
    ensures
        match r {
            Some(uuid) => uuid_from(table@, 0) == Some(uuid@),
            None => uuid_from(table@, 0) is None,
        },
{
    let size: usize = table.len();
    let mut off: usize = 0;
    while size - off >= 4
        invariant
            off <= size,
            size == table@.len(),
            size == table.len(),
            uuid_from(table@, 0) == uuid_from(table@, off as int),
        decreases size - off,
    {
        let ty: u8 = table[off];
        let len: usize = table[off + 1] as usize;
        if len < 4 || size - off < len {
            return None;
        }
        if ty == TYPE_END {
            return None;
        }
        if ty == TYPE_SYSTEM && len >= UUID_END {
            return Some(uuid_at(table, off + UUID_OFFSET));
        }
        // Skip the formatted area and the string-set (terminated by a double NUL).
        match skip_strings(table, off + len) {
            Some(end) => {
                off = end;
            },
            None => {
                return None;
            },
        }
    }
    None
}

fn uuid_at(table: &[u8], at: usize) -> (uuid: [u8; 16])
    requires
        at + 16 <= table@.len(),
    ensures
        uuid@ == table@.subrange(at as int, at + 16),
{
    let uuid: [u8; 16] = [
        table[at],
        table[at + 1],
        table[at + 2],
        table[at + 3],
        table[at + 4],
        table[at + 5],
        table[at + 6],
        table[at + 7],
        table[at + 8],
        table[at + 9],
        table[at + 10],
        table[at + 11],
        table[at + 12],
        table[at + 13],
        table[at + 14],
        table[at + 15],
    ];
    assert(uuid@ =~= table@.subrange(at as int, at + 16));
    uuid
}

/// A whole structure with its strings, from which no UUID is taken: the formatted
/// area, then strings up to the first double NUL, which ends the structure.
pub open spec fn is_other_structure(structure: Seq<u8>) -> bool {
    let formatted = structure[1] as int;
    let n = structure.len() as int;
    &&& n >= 4
    &&& 4 <= formatted
    &&& formatted + 2 <= n
    &&& structure[0] != 0x7f
    &&& !(structure[0] == 1 && formatted >= 24)
    &&& structure[n - 2] == 0 && structure[n - 1] == 0
    &&& forall|i: int|
        formatted <= i < n - 2 ==> !(#[trigger] structure[i] == 0 && structure[i + 1] == 0)
}

/// A system information structure that is long enough to hold a UUID.
pub open spec fn is_system_structure(structure: Seq<u8>) -> bool {
    &&& structure.len() >= 4
    &&& structure[0] == 1
    &&& 24 <= structure[1] <= structure.len()
}

proof fn lemma_strings_end_shift(before: Seq<u8>, table: Seq<u8>, from: int)
    requires
        0 <= from,
    ensures
        strings_end(before + table, before.len() + from) == before.len() + strings_end(table, from),
    decreases table.len() - from,
{
    let all = before + table;
    if from + 1 < table.len() {
        assert(all[before.len() + from] == table[from]);
        assert(all[before.len() + from + 1] == table[from + 1]);
        if !double_nul(table, from) {
            lemma_strings_end_shift(before, table, from + 1);
        }
    }
}

proof fn lemma_uuid_shift(before: Seq<u8>, table: Seq<u8>, off: int)
    requires
        0 <= off,
    ensures
        uuid_from(before + table, before.len() + off) == uuid_from(table, off),
    decreases table.len() - off,
{
    let all = before + table;
    if off + 4 <= table.len() {
        assert(all[before.len() + off] == table[off]);
        assert(all[before.len() + off + 1] == table[off + 1]);
        let formatted = table[off + 1] as int;
        if formatted >= 4 && off + formatted <= table.len() && table[off] != TYPE_END {
            if table[off] == TYPE_SYSTEM && formatted >= UUID_END {
                assert(all.subrange(
                    before.len() + off + UUID_OFFSET,
                    before.len() + off + UUID_END,
                ) =~= table.subrange(off + UUID_OFFSET, off + UUID_END));
            } else {
                lemma_strings_end_shift(before, table, off + formatted);
                lemma_strings_have_an_end(table, off + formatted);
                if strings_end(table, off + formatted) <= table.len() {
                    lemma_uuid_shift(before, table, strings_end(table, off + formatted));
                }
            }
        }
    }
}

proof fn lemma_strings_end_at(table: Seq<u8>, from: int, end: int)
    requires
        0 <= from <= end,
        double_nul(table, end),
        forall|i: int| from <= i < end ==> !double_nul(table, i),
    ensures
        strings_end(table, from) == end + 2,
    decreases end - from,
{
    if from < end {
        lemma_strings_end_at(table, from + 1, end);
    }
}

/// A structure that holds no system UUID is skipped with its strings.
pub proof fn law_other_structures_are_skipped(structure: Seq<u8>, table: Seq<u8>)
    requires
        is_other_structure(structure),
    ensures
        uuid_from(structure + table, 0) == uuid_from(table, 0),
{
    let all = structure + table;
    let formatted = structure[1] as int;
    let end = structure.len() - 2;
    assert(all[0] == structure[0] && all[1] == structure[1]);
    assert(double_nul(all, end));
    assert forall|i: int| formatted <= i < end implies !double_nul(all, i) by {
        assert(all[i] == structure[i] && all[i + 1] == structure[i + 1]);
        assert(!(structure[i] == 0 && structure[i + 1] == 0));
    }
    lemma_strings_end_at(all, formatted, end);
    lemma_uuid_shift(structure, table, 0);
}

/// In a table of well-formed structures the UUID is found wherever the system
/// information structure stands, and whatever comes behind it.
pub proof fn law_uuid_is_found(others: Seq<Seq<u8>>, system: Seq<u8>, behind: Seq<u8>)
    requires
        forall|i: int| 0 <= i < others.len() ==> is_other_structure(#[trigger] others[i]),
        is_system_structure(system),
    ensures
        uuid_from(joined(others) + (system + behind), 0) == Some(
            system.subrange(UUID_OFFSET as int, UUID_END as int),
        ),
    decreases others.len(),
{
    let tail = system + behind;
    let table = joined(others) + tail;
    if others.len() == 0 {
        assert(table =~= tail);
        assert(tail[0] == system[0] && tail[1] == system[1]);
        assert(tail.subrange(UUID_OFFSET as int, UUID_END as int) =~= system.subrange(
            UUID_OFFSET as int,
            UUID_END as int,
        ));
    } else {
        let rest = others.drop_first();
        lemma_joined_first(others);
        assert(table =~= others[0] + (joined(rest) + tail));
        law_other_structures_are_skipped(others[0], joined(rest) + tail);
        assert forall|i: int| 0 <= i < rest.len() implies is_other_structure(
            #[trigger] rest[i],
        ) by {
            assert(rest[i] == others[i + 1]);
        }
        law_uuid_is_found(rest, system, behind);
    }
}

/// The entry point is found wherever it stands in the configuration table: the least
/// index with the 64-bit one, else the least index with the 32-bit one, and none only
/// if no index holds either.
pub proof fn law_entry_point_is_found_anywhere(guids: Seq<[u8; 16]>, i: int)
    ensures
        smbios_entry(guids) == Some((EntryPoint::Bits64, i)) <==> first_at(guids, SMBIOS3_GUID@, i),
        smbios_entry(guids) == Some((EntryPoint::Bits32, i)) <==> first_at(guids, SMBIOS_GUID@, i)
            && forall|j: int| 0 <= j < guids.len() ==> (#[trigger] guids[j])@ != SMBIOS3_GUID@,
        smbios_entry(guids) is None <==> forall|j: int|
            0 <= j < guids.len() ==> (#[trigger] guids[j])@ != SMBIOS3_GUID@ && guids[j]@
                != SMBIOS_GUID@,
{
    lemma_find_guid(guids, SMBIOS3_GUID@, 0);
    lemma_find_guid(guids, SMBIOS_GUID@, 0);
    if first_at(guids, SMBIOS3_GUID@, i) {
        let k = find_guid(guids, SMBIOS3_GUID@, 0)->0;
        assert(guids[k]@ == SMBIOS3_GUID@ && guids[i]@ == SMBIOS3_GUID@);
    }
    if first_at(guids, SMBIOS_GUID@, i) {
        let k = find_guid(guids, SMBIOS_GUID@, 0)->0;
        assert(guids[k]@ == SMBIOS_GUID@ && guids[i]@ == SMBIOS_GUID@);
    }
}

/// Where an entry point says that the structure table lies, byte by byte.
pub proof fn law_entry_points_give_the_region(entry: Seq<u8>)
    ensures
        region_of(EntryPoint::Bits32, entry).0 == entry[0x18] + 256 * entry[0x19] + 65536
            * entry[0x1a] + 16777216 * entry[0x1b],
        region_of(EntryPoint::Bits32, entry).1 == entry[0x16] + 256 * entry[0x17],
        region_of(EntryPoint::Bits64, entry).0 == entry[0x10] + 256 * entry[0x11] + 65536
            * entry[0x12] + 16777216 * entry[0x13] + 4294967296 * (entry[0x14] + 256 * entry[0x15]
            + 65536 * entry[0x16] + 16777216 * entry[0x17]),
        region_of(EntryPoint::Bits64, entry).1 == entry[0x0c] + 256 * entry[0x0d] + 65536
            * entry[0x0e] + 16777216 * entry[0x0f],
{
    law_le_numbers_add_up(entry, 0x0c);
    law_le_numbers_add_up(entry, 0x10);
    law_le_numbers_add_up(entry, 0x14);
    law_le_numbers_add_up(entry, 0x16);
    law_le_numbers_add_up(entry, 0x18);
}

/// Whether a table is whole structures without a UUID, then a system information
/// structure with the given UUID, then anything.
pub open spec fn holds_uuid(
    table: Seq<u8>,
    others: Seq<Seq<u8>>,
    system: Seq<u8>,
    behind: Seq<u8>,
    uuid: Seq<u8>,
) -> bool {
    &&& table == joined(others) + (system + behind)
    &&& forall|i: int| 0 <= i < others.len() ==> is_other_structure(#[trigger] others[i])
    &&& is_system_structure(system)
    &&& uuid == system.subrange(8, 24)
}

proof fn lemma_strings_end_found(table: Seq<u8>, from: int)
    requires
        0 <= from,
        strings_end(table, from) <= table.len(),
    ensures
        ({
            let end = strings_end(table, from);
            &&& end >= from + 2
            &&& table[end - 2] == 0 && table[end - 1] == 0
            &&& forall|i: int|
                from <= i < end - 2 ==> !(#[trigger] table[i] == 0 && table[i + 1] == 0)
        }),
    decreases table.len() - from,
{
    if from + 1 < table.len() && !double_nul(table, from) {
        lemma_strings_end_found(table, from + 1);
    }
}

proof fn lemma_uuid_comes_from(table: Seq<u8>, off: int) -> (parts: (
    Seq<Seq<u8>>,
    Seq<u8>,
    Seq<u8>,
))
    requires
        0 <= off,
        uuid_from(table, off) is Some,
    ensures
        off <= table.len(),
        holds_uuid(table.skip(off), parts.0, parts.1, parts.2, uuid_from(table, off)->0),
    decreases table.len() - off,
{
    let formatted = table[off + 1] as int;
    let here = table.skip(off);
    if table[off] == TYPE_SYSTEM && formatted >= UUID_END {
        let system = table.subrange(off, off + formatted);
        let behind = table.skip(off + formatted);
        let others = Seq::<Seq<u8>>::empty();
        assert(here =~= joined(others) + (system + behind));
        assert(system.subrange(8, 24) =~= table.subrange(off + UUID_OFFSET, off + UUID_END));
        (others, system, behind)
    } else {
        let end = strings_end(table, off + formatted);
        lemma_strings_end_found(table, off + formatted);
        let (rest, system, behind) = lemma_uuid_comes_from(table, end);
        let first = table.subrange(off, end);
        let others = seq![first] + rest;
        let n = first.len() as int;
        assert(is_other_structure(first)) by {
            assert forall|i: int| formatted <= i < n - 2 implies !(#[trigger] first[i] == 0
                && first[i + 1] == 0) by {
                assert(first[i] == table[off + i] && first[i + 1] == table[off + i + 1]);
            }
        }
        assert forall|i: int| 0 <= i < others.len() implies is_other_structure(
            #[trigger] others[i],
        ) by {
            if i > 0 {
                assert(others[i] == rest[i - 1]);
            }
        }
        lemma_joined_first(others);
        assert(others.drop_first() =~= rest);
        assert(here =~= first + table.skip(end));
        assert(here =~= joined(others) + (system + behind));
        (others, system, behind)
    }
}

/// A UUID is found exactly if the table holds it: behind any number of whole structures
/// without one, in the first system information structure that is long enough.
pub proof fn law_uuid_is_found_iff_held(table: Seq<u8>, uuid: Seq<u8>)
    ensures
        uuid_from(table, 0) == Some(uuid) <==> exists|
            others: Seq<Seq<u8>>,
            system: Seq<u8>,
            behind: Seq<u8>,
        | #[trigger] holds_uuid(table, others, system, behind, uuid),
{
    if uuid_from(table, 0) == Some(uuid) {
        let (others, system, behind) = lemma_uuid_comes_from(table, 0);
        assert(table.skip(0) =~= table);
        assert(holds_uuid(table, others, system, behind, uuid));
    }
    if exists|others: Seq<Seq<u8>>, system: Seq<u8>, behind: Seq<u8>|
        #[trigger] holds_uuid(table, others, system, behind, uuid) {
        let (others, system, behind) = choose|
            others: Seq<Seq<u8>>,
            system: Seq<u8>,
            behind: Seq<u8>,
        | #[trigger] holds_uuid(table, others, system, behind, uuid);
        law_uuid_is_found(others, system, behind);
    }
}

/// A structure of any type and length, with any strings, is walked past: the UUID of a
/// table that starts with it is that of the rest. It only must not be the end of the
/// table, nor a system information structure that is long enough for a UUID.
pub proof fn law_any_structure_is_walked_past(structure: Seq<u8>, table: Seq<u8>)
    requires
        structure.len() >= 6,
        4 <= structure[1] <= structure.len() - 2,
        structure[0] != 0x7f,
        structure[0] != 1 || structure[1] < 24,
        structure[structure.len() - 2] == 0,
        structure[structure.len() - 1] == 0,
        forall|i: int|
            structure[1] <= i < structure.len() - 2 ==> !(#[trigger] structure[i] == 0
                && structure[i + 1] == 0),
    ensures
        uuid_from(structure + table, 0) == uuid_from(table, 0),
{
    law_other_structures_are_skipped(structure, table);
}

/// A table that starts with a system information structure of 24 bytes or more has its
/// bytes 8 to 23 as the UUID.
pub proof fn law_system_structure_gives_the_uuid(table: Seq<u8>)
    requires
        table.len() >= 24,
        table[0] == 1,
        24 <= table[1] <= table.len(),
    ensures
        uuid_from(table, 0) == Some(table.subrange(8, 24)),
{
}

/// The walk finds nothing in a table without a whole header, at a structure whose length
/// is too small or reaches behind the table, at the end of the table, and where strings
/// do not end.
pub proof fn law_walk_stops_at_corruption(table: Seq<u8>)
    ensures
        table.len() < 4 ==> uuid_from(table, 0) is None,
        table.len() >= 4 && (table[1] < 4 || table[1] > table.len() || table[0] == 0x7f)
            ==> uuid_from(table, 0) is None,
        table.len() >= 4 && 4 <= table[1] <= table.len() && !(table[0] == 1 && table[1] >= 24) && (
        forall|i: int|
            table[1] <= i < table.len() - 1 ==> !(#[trigger] table[i] == 0 && table[i + 1] == 0))
            ==> uuid_from(table, 0) is None,
{
    if table.len() >= 4 && 4 <= table[1] <= table.len() {
        let from = table[1] as int;
        if strings_end(table, from) <= table.len() {
            lemma_strings_end_found(table, from);
            let end = strings_end(table, from);
            assert(table[end - 2] == 0 && table[end - 2 + 1] == 0);
        }
    }
}

} // verus!
