//! The `Boot####` variables: their names, their contents, and which of them
//! pinnacle created.

use vstd::prelude::*;

use crate::bytes::le16;
use crate::bytes::le16_bytes;
use crate::bytes::le32;
use crate::bytes::le32_bytes;
use crate::bytes::le_number;
use crate::text::hex4;
use crate::text::law_hex4_shows_every_digit;
use crate::text::law_hexadecimal_digits;
use crate::text::push_hex4;
use crate::text::upper_digit;
use crate::ucs2::code_units;
use crate::ucs2::representable;
use crate::ucs2::to_ucs2;

verus! {

/// The boot-entry description shown in the firmware menu, `pinnacle`, as stored in
/// an `EFI_LOAD_OPTION`: little-endian UCS-2 with a NUL terminator. Also the marker
/// that recognizes pinnacle's own entries across reboots (see [`is_ours`]).
pub const DESCRIPTION_BYTES: [u8; 18] = [
    0x70,
    0,
    0x69,
    0,
    0x6e,
    0,
    0x6e,
    0,
    0x61,
    0,
    0x63,
    0,
    0x6c,
    0,
    0x65,
    0,
    0,
    0,
];

/// The vendor of the variables that UEFI defines, as the bytes of its GUID.
pub const GLOBAL_VARIABLE: [u8; 16] = [
    0x61,
    0xdf,
    0xe4,
    0x8b,
    0xca,
    0x93,
    0xd2,
    0x11,
    0xaa,
    0x0d,
    0x00,
    0xe0,
    0x98,
    0x03,
    0x2b,
    0x8c,
];

/// `LOAD_OPTION_ACTIVE`: the entry is a valid boot candidate.
pub const LOAD_OPTION_ACTIVE: u32 = 0x0000_0001;

/// The `EFI_LOAD_OPTION` for a device path: attributes, length of the path,
/// description, path, and no optional data.
pub open spec fn load_option(path: Seq<u8>) -> Seq<u8> {
    le32(LOAD_OPTION_ACTIVE) + le16((path.len() % 65536) as u16) + DESCRIPTION_BYTES@ + path
}

/// Whether a serialized `EFI_LOAD_OPTION` carries our exact description.
pub open spec fn ours(option: Seq<u8>) -> bool {
    option.len() >= 24 && option.subrange(6, 24) == DESCRIPTION_BYTES@
}

/// The value of a hexadecimal digit in either case.
pub open spec fn hex_value(c: u16) -> Option<int> {
    if 48 <= c <= 57 {
        Some(c - 48)
    } else if 65 <= c <= 70 {
        Some(c - 55)
    } else if 97 <= c <= 102 {
        Some(c - 87)
    } else {
        None
    }
}

/// The index in a variable name of the form `Boot####` (four hex digits), without
/// its NUL terminator.
pub open spec fn boot_index(name: Seq<u16>) -> Option<u16> {
    if name.len() == 8 && name.take(4) == seq![0x42u16, 0x6fu16, 0x6fu16, 0x74u16] {
        match (hex_value(name[4]), hex_value(name[5]), hex_value(name[6]), hex_value(name[7])) {
            (Some(a), Some(b), Some(c), Some(d)) => Some(
                (4096 * a + 256 * b + 16 * c + d) as u16,
            ),
            _ => None,
        }
    } else {
        None
    }
}

/// The name of the variable for an index: `Boot` and four uppercase digits.
pub open spec fn boot_name(number: u16) -> Seq<char> {
    "Boot"@ + hex4(number)
}

/// Serialize an `EFI_LOAD_OPTION` for `path` with our description and no optional
/// data.
pub fn build_option(path: &[u8]) -> (option: Vec<u8>)
    ensures
        option@ == load_option(path@),
{
    let mut option: Vec<u8> = Vec::new();
    let attributes: [u8; 4] = le32_bytes(LOAD_OPTION_ACTIVE);
    let length: [u8; 2] = le16_bytes((path.len() % 65536) as u16);
    option.extend_from_slice(attributes.as_slice());
    option.extend_from_slice(length.as_slice());
    option.extend_from_slice(DESCRIPTION_BYTES.as_slice());
    option.extend_from_slice(path);
    assert(option@ =~= load_option(path@));
    option
}

/// Whether two byte slices are equal.
pub fn same_bytes(a: &[u8], b: &[u8]) -> (r: bool)
    ensures
        r == (a@ == b@),
{
    if a.len() != b.len() {
        return false;
    }
    let mut i: usize = 0;
    while i < a.len()
        invariant
            i <= a.len(),
            a@.len() == b@.len(),
            a@.take(i as int) == b@.take(i as int),
        decreases a.len() - i,
    {
        if a[i] != b[i] {
            assert(a@[i as int] != b@[i as int]);
            return false;
        }
        i = i + 1;
        assert(a@.take(i as int) =~= a@.take(i - 1).push(a@[i - 1]));
        assert(b@.take(i as int) =~= b@.take(i - 1).push(b@[i - 1]));
    }
    assert(a@.take(i as int) =~= a@);
    assert(b@.take(i as int) =~= b@);
    true
}

/// Whether a serialized `EFI_LOAD_OPTION` carries our exact description, i.e., is
/// an entry pinnacle created.
pub fn is_ours(option: &[u8]) -> (r: bool)
    ensures
        r == ours(option@),
{
    // The description follows the u32 attributes and the u16 path length.
    if option.len() < 24 {
        return false;
    }
    same_bytes(&option[6..24], DESCRIPTION_BYTES.as_slice())
}

fn hex_digit(c: u16) -> (r: Option<u16>)
    ensures
        match r {
            Some(v) => hex_value(c) == Some(v as int) && v < 16,
            None => hex_value(c) is None,
        },
{
    if 48 <= c && c <= 57 {
        Some(c - 48)
    } else if 65 <= c && c <= 70 {
        Some(c - 55)
    } else if 97 <= c && c <= 102 {
        Some(c - 87)
    } else {
        None
    }
}

/// Parse `Boot####` (four hex digits) into its index, rejecting other names. The
/// name comes without its NUL terminator.
pub fn entry_number(name: &[u16]) -> (r: Option<u16>)
    ensures
        r == boot_index(name@),
{
    if name.len() != 8 {
        return None;
    }
    if name[0] != 0x42 || name[1] != 0x6f || name[2] != 0x6f || name[3] != 0x74 {
        assert(name@.take(4)[0] == name@[0] && name@.take(4)[1] == name@[1] && name@.take(4)[2]
            == name@[2] && name@.take(4)[3] == name@[3]);
        return None;
    }
    assert(name@.take(4) =~= seq![0x42u16, 0x6fu16, 0x6fu16, 0x74u16]);
    let a: u16 = match hex_digit(name[4]) {
        Some(v) => v,
        None => {
            return None;
        },
    };
    let b: u16 = match hex_digit(name[5]) {
        Some(v) => v,
        None => {
            return None;
        },
    };
    let c: u16 = match hex_digit(name[6]) {
        Some(v) => v,
        None => {
            return None;
        },
    };
    let d: u16 = match hex_digit(name[7]) {
        Some(v) => v,
        None => {
            return None;
        },
    };
    Some(4096 * a + 256 * b + 16 * c + d)
}

/// The `Boot####` variable name for an index, with its NUL terminator.
pub fn entry_name(number: u16) -> (name: Vec<u16>)
    ensures
        name@ == code_units(boot_name(number)).push(0),
{
    let mut text = String::new();
    text.append("Boot");
    push_hex4(&mut text, number);
    assert(text@ =~= boot_name(number));
    proof {
        lemma_boot_name(number);
    }
    match to_ucs2(text.as_str()) {
        Ok(name) => name,
        Err(_) => Vec::new(),
    }
}

proof fn lemma_boot_name(number: u16)
    ensures
        representable(boot_name(number)),
        boot_name(number).len() == 8,
        code_units(boot_name(number)).take(4) == seq![0x42u16, 0x6fu16, 0x6fu16, 0x74u16],
        forall|i: int|
            4 <= i < 8 ==> code_units(boot_name(number))[i] == #[trigger] hex4(number)[i - 4]
                as u16,
{
    reveal_strlit("Boot");
    assert(code_units(boot_name(number)).take(4) =~= seq![0x42u16, 0x6fu16, 0x6fu16, 0x74u16]);
}

/// Parsing the name of an entry gives back its index.
pub proof fn law_entry_names_parse_back(number: u16)
    ensures
        boot_index(code_units(boot_name(number))) == Some(number),
{
    lemma_boot_name(number);
    let units = code_units(boot_name(number));
    let n = number as int;
    assert(units[4] == hex4(number)[4 - 4] as u16);
    assert(units[5] == hex4(number)[5 - 4] as u16);
    assert(units[6] == hex4(number)[6 - 4] as u16);
    assert(units[7] == hex4(number)[7 - 4] as u16);
    lemma_hex_digit_reads_back(n / 4096);
    lemma_hex_digit_reads_back(n / 256 % 16);
    lemma_hex_digit_reads_back(n / 16 % 16);
    lemma_hex_digit_reads_back(n % 16);
    lemma_four_digits(n);
}

proof fn lemma_hex_digit_reads_back(d: int)
    requires
        0 <= d < 16,
    ensures
        hex_value(upper_digit(d) as u16) == Some(d),
{
}

proof fn lemma_four_digits(n: int)
    requires
        0 <= n < 65536,
    ensures
        n == 4096 * (n / 4096) + 256 * (n / 256 % 16) + 16 * (n / 16 % 16) + n % 16,
        0 <= n / 4096 < 16,
{
    assert(n / 256 == (n / 16) / 16);
    assert(n / 4096 == (n / 256) / 16);
}

/// An entry that pinnacle builds is recognized as its own, and its path reads back.
pub proof fn law_built_options_are_ours(path: Seq<u8>)
    ensures
        ours(load_option(path)),
        load_option(path).skip(24) == path,
        path.len() <= 0xffff ==> le_number(load_option(path), 4, 2) == path.len(),
{
    let option = load_option(path);
    assert(option.subrange(6, 24) =~= DESCRIPTION_BYTES@);
    assert(option.skip(24) =~= path);
    reveal_with_fuel(le_number, 3);
}

/// A firmware variable. The value of a variable that cannot be read, or that is no
/// boot entry, is `None`.
pub struct Variable {
    pub vendor: [u8; 16],
    pub name: Vec<u16>,
    pub value: Option<Vec<u8>>,
}

/// [`Variable`] with sequences in place of vectors.
pub struct VariableView {
    pub vendor: Seq<u8>,
    pub name: Seq<u16>,
    pub value: Option<Seq<u8>>,
}

impl View for Variable {
    type V = VariableView;

    open spec fn view(&self) -> VariableView {
        VariableView {
            vendor: self.vendor@,
            name: self.name@,
            value: match self.value {
                Some(bytes) => Some(bytes@),
                None => None,
            },
        }
    }
}

/// A `Boot####` entry: its index and the raw `EFI_LOAD_OPTION` bytes.
pub struct Entry {
    pub number: u16,
    pub option: Vec<u8>,
}

/// [`Entry`] with the bytes as a sequence.
pub struct EntryView {
    pub number: u16,
    pub option: Seq<u8>,
}

impl View for Entry {
    type V = EntryView;

    open spec fn view(&self) -> EntryView {
        EntryView { number: self.number, option: self.option@ }
    }
}

/// Outcome of scanning the global boot entries.
pub struct Scan {
    /// Entries pinnacle created, matched by description.
    pub ours: Vec<Entry>,
    /// Every `Boot####` index currently in use.
    pub used: Vec<u16>,
}

/// [`Scan`] with sequences in place of vectors.
pub struct ScanView {
    pub ours: Seq<EntryView>,
    pub used: Seq<u16>,
}

impl View for Scan {
    type V = ScanView;

    open spec fn view(&self) -> ScanView {
        ScanView { ours: self.ours@.map_values(|e: Entry| e@), used: self.used@ }
    }
}

/// The index of a variable that is a boot entry.
pub open spec fn entry_index(vendor: Seq<u8>, name: Seq<u16>) -> Option<u16> {
    if vendor == GLOBAL_VARIABLE@ {
        boot_index(name)
    } else {
        None
    }
}

/// The boot entry that a variable holds, where pinnacle created it.
pub open spec fn own_entry(variable: VariableView) -> Option<EntryView> {
    match (entry_index(variable.vendor, variable.name), variable.value) {
        (Some(number), Some(option)) => if ours(option) {
            Some(EntryView { number, option })
        } else {
            None
        },
        _ => None,
    }
}

/// What scanning the variables in the given order finds.
pub open spec fn scan_of(variables: Seq<VariableView>) -> ScanView {
    ScanView {
        ours: variables.filter_map(|v: VariableView| own_entry(v)),
        used: variables.filter_map(|v: VariableView| entry_index(v.vendor, v.name)),
    }
}

/// The index of a variable if it is a boot entry, whose value is then to be read.
pub fn boot_entry(vendor: &[u8; 16], name: &[u16]) -> (r: Option<u16>)
    ensures
        r == entry_index(vendor@, name@),
{
    if !same_bytes(vendor.as_slice(), GLOBAL_VARIABLE.as_slice()) {
        return None;
    }
    entry_number(name)
}

/// Scan the variables for pinnacle's own entries and the set of indices already in
/// use.
pub fn scan(variables: &Vec<Variable>) -> (r: Scan)
    ensures
        r@ == scan_of(variables@.map_values(|v: Variable| v@)),
{
    let ghost all = variables@.map_values(|v: Variable| v@);
    let mut found = Scan { ours: Vec::new(), used: Vec::new() };
    let mut i: usize = 0;
    assert(found@.ours =~= scan_of(all.take(0)).ours);
    assert(found@.used =~= scan_of(all.take(0)).used);
    while i < variables.len()
        invariant
            i <= variables.len(),
            all == variables@.map_values(|v: Variable| v@),
            found@ == scan_of(all.take(i as int)),
        decreases variables.len() - i,
    {
        let ghost before = found@;
        let variable: &Variable = &variables[i];
        assert(all.take(i + 1).drop_last() =~= all.take(i as int));
        assert(all.take(i + 1).last() == variable@);
        if let Some(number) = boot_entry(&variable.vendor, variable.name.as_slice()) {
            found.used.push(number);
            if let Some(bytes) = &variable.value {
                if is_ours(bytes.as_slice()) {
                    let mut option: Vec<u8> = Vec::new();
                    option.extend_from_slice(bytes.as_slice());
                    assert(option@ =~= bytes@);
                    found.ours.push(Entry { number, option });
                    assert(found@.ours =~= before.ours.push(EntryView { number, option: bytes@ }));
                }
            }
        }
        assert(found@.ours =~= scan_of(all.take(i + 1)).ours);
        assert(found@.used =~= scan_of(all.take(i + 1)).used);
        i = i + 1;
    }
    assert(all.take(i as int) =~= all);
    found
}

/// The lowest index from `from` on that is not among the used ones.
pub open spec fn free_from(used: Seq<u16>, from: int) -> Option<u16>
    decreases 65536 - from,
{
    if from >= 65536 {
        None
    } else if !used.contains(from as u16) {
        Some(from as u16)
    } else {
        free_from(used, from + 1)
    }
}

/// Whether an index is in a list.
pub fn is_listed(list: &[u16], n: u16) -> (r: bool)
    ensures
        r == list@.contains(n),
{
    let mut i: usize = 0;
    while i < list.len()
        invariant
            i <= list.len(),
            forall|j: int| 0 <= j < i ==> list@[j] != n,
        decreases list.len() - i,
    {
        if list[i] == n {
            return true;
        }
        i = i + 1;
    }
    false
}

/// Lowest `Boot####` index not already present.
pub fn first_free(used: &[u16]) -> (r: Option<u16>)
    ensures
        r == free_from(used@, 0),
        match r {
            Some(n) => !used@.contains(n) && forall|m: u16| m < n ==> used@.contains(m),
            None => forall|m: u16| used@.contains(m),
        },
{
    let mut n: u32 = 0;
    while n < 65536
        invariant
            n <= 65536,
            forall|m: u16| m < n ==> used@.contains(m),
            free_from(used@, 0) == free_from(used@, n as int),
        decreases 65536 - n,
    {
        if !is_listed(used, n as u16) {
            return Some(n as u16);
        }
        n = n + 1;
    }
    None
}

/// An option for any path: active, the length of the path, our description, and the
/// whole path, with nothing between and nothing behind.
pub proof fn law_option_holds_the_whole_path(path: Seq<u8>)
    ensures
        ({
            let option = load_option(path);
            &&& option.len() == 24 + path.len()
            &&& option.take(4) == seq![1u8, 0u8, 0u8, 0u8]
            &&& option[4] + 256 * option[5] == path.len() % 65536
            &&& option.subrange(6, 24) == DESCRIPTION_BYTES@
            &&& option.skip(24) == path
        }),
{
    let option = load_option(path);
    assert(option.take(4) =~= seq![1u8, 0u8, 0u8, 0u8]);
    assert(option.subrange(6, 24) =~= DESCRIPTION_BYTES@);
    assert(option.skip(24) =~= path);
}

/// An option is ours exactly if it has our description, byte by byte, behind the six
/// bytes of the attributes and the length; what those and the rest hold does not count.
pub proof fn law_description_alone_marks_our_options(option: Seq<u8>)
    ensures
        ours(option) <==> option.len() >= 24 && forall|i: int|
            0 <= i < 18 ==> option[6 + i] == #[trigger] DESCRIPTION_BYTES@[i],
{
    if option.len() >= 24 {
        let part = option.subrange(6, 24);
        assert forall|i: int| 0 <= i < 18 implies part[i] == option[6 + i] by {}
        if ours(option) {
            assert forall|i: int| 0 <= i < 18 implies option[6 + i]
                == #[trigger] DESCRIPTION_BYTES@[i] by {
                assert(part[i] == DESCRIPTION_BYTES@[i]);
            }
        }
        if forall|i: int| 0 <= i < 18 ==> option[6 + i] == #[trigger] DESCRIPTION_BYTES@[i] {
            assert forall|i: int| 0 <= i < 18 implies part[i] == DESCRIPTION_BYTES@[i] by {
                assert(option[6 + i] == DESCRIPTION_BYTES@[i]);
            }
            assert(part =~= DESCRIPTION_BYTES@);
        }
    }
}

/// The digits that are read are the sixteen hexadecimal ones, in either case, with
/// their values, and no other code unit is.
pub proof fn law_hex_digits_have_their_values(c: u16, v: int)
    ensures
        hex_value(c) == Some(v) <==> 0 <= v < 16 && (c == "0123456789abcdef"@[v] as u16 || c
            == "0123456789ABCDEF"@[v] as u16),
{
    reveal_strlit("0123456789abcdef");
    reveal_strlit("0123456789ABCDEF");
    if 0 <= v < 16 {
        law_hexadecimal_digits(v);
    }
}

/// A name has an index exactly if it is `Boot` and four digits, and the index is what
/// the digits say.
pub proof fn law_names_have_the_index_they_spell(name: Seq<u16>, n: u16)
    ensures
        boot_index(name) == Some(n) <==> {
            &&& name.len() == 8
            &&& name[0] == 'B' as u16 && name[1] == 'o' as u16 && name[2] == 'o' as u16 && name[3]
                == 't' as u16
            &&& hex_value(name[4]) == Some(n as int / 4096)
            &&& hex_value(name[5]) == Some(n as int / 256 % 16)
            &&& hex_value(name[6]) == Some(n as int / 16 % 16)
            &&& hex_value(name[7]) == Some(n as int % 16)
        },
{
    let boot = seq![0x42u16, 0x6fu16, 0x6fu16, 0x74u16];
    lemma_four_digits(n as int);
    if name.len() == 8 {
        let head = name.take(4);
        assert(head[0] == name[0] && head[1] == name[1] && head[2] == name[2] && head[3]
            == name[3]);
        if name[0] == 0x42 && name[1] == 0x6f && name[2] == 0x6f && name[3] == 0x74 {
            assert(head =~= boot);
        }
        if boot_index(name) == Some(n) {
            assert(head == boot);
            let a = hex_value(name[4])->0;
            let b = hex_value(name[5])->0;
            let c = hex_value(name[6])->0;
            let d = hex_value(name[7])->0;
            assert(0 <= a < 16 && 0 <= b < 16 && 0 <= c < 16 && 0 <= d < 16);
            lemma_digits_of(a, b, c, d);
        }
    }
}

proof fn lemma_digits_of(a: int, b: int, c: int, d: int)
    requires
        0 <= a < 16,
        0 <= b < 16,
        0 <= c < 16,
        0 <= d < 16,
    ensures
        ({
            let n = 4096 * a + 256 * b + 16 * c + d;
            &&& n / 4096 == a
            &&& n / 256 % 16 == b
            &&& n / 16 % 16 == c
            &&& n % 16 == d
        }),
{
    let n = 4096 * a + 256 * b + 16 * c + d;
    assert(n / 16 == 256 * a + 16 * b + c);
    assert(n / 256 == 16 * a + b);
}

/// The name that is written for an index is `Boot` and its four uppercase digits.
pub proof fn law_written_names_are_uppercase(number: u16)
    ensures
        boot_name(number).len() == 8,
        boot_name(number).take(4) == "Boot"@,
        boot_name(number)[4] == "0123456789ABCDEF"@[number as int / 4096],
        boot_name(number)[5] == "0123456789ABCDEF"@[number as int / 256 % 16],
        boot_name(number)[6] == "0123456789ABCDEF"@[number as int / 16 % 16],
        boot_name(number)[7] == "0123456789ABCDEF"@[number as int % 16],
{
    reveal_strlit("Boot");
    law_hex4_shows_every_digit(number);
    assert(boot_name(number).take(4) =~= "Boot"@);
}

/// A variable is a boot entry exactly if its vendor is the global one and its name has
/// an index. It is pinnacle's exactly if its value can be read and is ours, and then
/// all of the value is kept.
pub proof fn law_entries_are_global_variables(variable: VariableView, n: u16)
    ensures
        entry_index(variable.vendor, variable.name) == Some(n) <==> variable.vendor
            == GLOBAL_VARIABLE@ && boot_index(variable.name) == Some(n),
        own_entry(variable) is Some <==> variable.vendor == GLOBAL_VARIABLE@ && boot_index(
            variable.name,
        ) is Some && (variable.value matches Some(bytes) && ours(bytes)),
        own_entry(variable) matches Some(entry) ==> boot_index(variable.name) == Some(entry.number)
            && variable.value == Some(entry.option),
{
}

/// How one variable more changes what a scan finds: its index is appended if it has
/// one, and its entry if it is ours. So nothing is left out, wherever it is listed.
pub proof fn law_scan_takes_every_variable(variables: Seq<VariableView>, last: VariableView)
    ensures
        scan_of(Seq::empty()).used.len() == 0,
        scan_of(Seq::empty()).ours.len() == 0,
        scan_of(variables.push(last)).used == (match entry_index(last.vendor, last.name) {
            Some(n) => scan_of(variables).used.push(n),
            None => scan_of(variables).used,
        }),
        scan_of(variables.push(last)).ours == (match own_entry(last) {
            Some(entry) => scan_of(variables).ours.push(entry),
            None => scan_of(variables).ours,
        }),
{
    assert(variables.push(last).drop_last() =~= variables);
}

/// The index for a new entry is the lowest that is not in use; there is none only if
/// all are.
pub proof fn law_free_index_is_the_lowest(used: Seq<u16>, n: u16)
    ensures
        free_from(used, 0) == Some(n) <==> !used.contains(n) && forall|m: u16|
            m < n ==> used.contains(m),
        free_from(used, 0) is None <==> forall|m: u16| used.contains(m),
{
    lemma_free_from(used, 0);
    if free_from(used, 0) is Some {
        let k = free_from(used, 0)->0;
        assert(!used.contains(k));
        assert(k < n || k == n || n < k);
    }
}

proof fn lemma_free_from(used: Seq<u16>, from: int)
    requires
        0 <= from <= 65536,
    ensures
        match free_from(used, from) {
            Some(k) => from <= k && !used.contains(k) && forall|m: u16|
                from <= m < k ==> used.contains(m),
            None => forall|m: u16| from <= m ==> used.contains(m),
        },
    decreases 65536 - from,
{
    if from < 65536 && used.contains(from as u16) {
        lemma_free_from(used, from + 1);
    }
}

/// Variables, entries and scans are seen as they are.
pub proof fn law_entry_views_keep_everything(variable: Variable, entry: Entry, scan: Scan)
    ensures
        variable@.vendor == variable.vendor@,
        variable@.name == variable.name@,
        variable.value matches Some(bytes) ==> variable@.value == Some(bytes@),
        variable.value is None ==> variable@.value is None,
        entry@.number == entry.number,
        entry@.option == entry.option@,
        scan@.used == scan.used@,
        scan@.ours.len() == scan.ours@.len(),
        forall|i: int| 0 <= i < scan.ours@.len() ==> #[trigger] scan@.ours[i] == scan.ours@[i]@,
{
}

} // verus!
