//! Integers in byte sequences.

use vstd::prelude::*;

verus! {

/// The two bytes of `n`, least significant first.
pub open spec fn le16(n: u16) -> Seq<u8> {
    seq![(n % 256) as u8, (n / 256) as u8]
}

/// The four bytes of `n`, least significant first.
pub open spec fn le32(n: u32) -> Seq<u8> {
    seq![
        (n % 256) as u8,
        (n / 256 % 256) as u8,
        (n / 65536 % 256) as u8,
        (n / 16777216) as u8,
    ]
}

/// The bytes of each element in turn, least significant first.
pub open spec fn le16s(units: Seq<u16>) -> Seq<u8> {
    Seq::new(
        2 * units.len(),
        |i: int|
            if i % 2 == 0 {
                (units[i / 2] % 256) as u8
            } else {
                (units[i / 2] / 256) as u8
            },
    )
}

/// The number that the `width` bytes from `at` on hold, least significant first.
pub open spec fn le_number(bytes: Seq<u8>, at: int, width: nat) -> nat
    decreases width,
{
    if width == 0 {
        0
    } else {
        bytes[at] as nat + 256 * le_number(bytes, at + 1, (width - 1) as nat)
    }
}

/// The number that the `width` bytes from `at` on hold, most significant first.
pub open spec fn be_number(bytes: Seq<u8>, at: int, width: nat) -> nat
    decreases width,
{
    if width == 0 {
        0
    } else {
        256 * be_number(bytes, at, (width - 1) as nat) + bytes[at + width - 1] as nat
    }
}

/// The low byte of `n`, then the high byte.
pub fn le16_bytes(n: u16) -> (bytes: [u8; 2])
    ensures
        bytes@ == le16(n),
{
    let bytes: [u8; 2] = [(n % 256) as u8, (n / 256) as u8];
    assert(bytes@ =~= le16(n));
    bytes
}

/// The bytes of `n`, from the lowest to the highest.
pub fn le32_bytes(n: u32) -> (bytes: [u8; 4])
    ensures
        bytes@ == le32(n),
{
    let bytes: [u8; 4] = [
        (n % 256) as u8,
        (n / 256 % 256) as u8,
        (n / 65536 % 256) as u8,
        (n / 16777216) as u8,
    ];
    assert(bytes@ =~= le32(n));
    bytes
}

/// Reads a little-endian 16-bit number.
pub fn read_le16(bytes: &[u8], at: usize) -> (n: u16)
    requires
        at + 2 <= bytes@.len(),
    ensures
        n == le_number(bytes@, at as int, 2),
{
    reveal_with_fuel(le_number, 3);
    bytes[at] as u16 + 256 * (bytes[at + 1] as u16)
}

/// Reads a little-endian 32-bit number.
pub fn read_le32(bytes: &[u8], at: usize) -> (n: u32)
    requires
        at + 4 <= bytes@.len(),
    ensures
        n == le_number(bytes@, at as int, 4),
{
    reveal_with_fuel(le_number, 5);
    bytes[at] as u32 + 256 * (bytes[at + 1] as u32) + 65536 * (bytes[at + 2] as u32) + 16777216 * (
    bytes[at + 3] as u32)
}

/// Reads a little-endian 64-bit number.
pub fn read_le64(bytes: &[u8], at: usize) -> (n: u64)
    requires
        at + 8 <= bytes@.len(),
    ensures
        n == le_number(bytes@, at as int, 8),
{
    assert(bytes.len() == bytes@.len());
    let low: u32 = read_le32(bytes, at);
    let high: u32 = read_le32(bytes, at + 4);
    reveal_with_fuel(le_number, 9);
    low as u64 + 4294967296 * (high as u64)
}

/// Reads a big-endian 16-bit number.
pub fn read_be16(bytes: &[u8], at: usize) -> (n: u16)
    requires
        at + 2 <= bytes@.len(),
    ensures
        n == be_number(bytes@, at as int, 2),
{
    reveal_with_fuel(be_number, 3);
    256 * (bytes[at] as u16) + bytes[at + 1] as u16
}

/// Reads a big-endian 32-bit number.
pub fn read_be32(bytes: &[u8], at: usize) -> (n: u32)
    requires
        at + 4 <= bytes@.len(),
    ensures
        n == be_number(bytes@, at as int, 4),
{
    reveal_with_fuel(be_number, 5);
    16777216 * (bytes[at] as u32) + 65536 * (bytes[at + 1] as u32) + 256 * (bytes[at + 2] as u32)
        + bytes[at + 3] as u32
}

/// Distinct sequences of 16-bit numbers have distinct bytes.
pub proof fn law_le16s_injective(a: Seq<u16>, b: Seq<u16>)
    requires
        le16s(a) == le16s(b),
    ensures
        a == b,
{
    assert(le16s(a).len() == 2 * a.len() && le16s(b).len() == 2 * b.len());
    assert forall|i: int| 0 <= i < a.len() implies a[i] == b[i] by {
        assert(le16s(a)[2 * i] == le16s(b)[2 * i]);
        assert(le16s(a)[2 * i + 1] == le16s(b)[2 * i + 1]);
        assert(a[i] == le16s(a)[2 * i] + 256 * le16s(a)[2 * i + 1]);
        assert(b[i] == le16s(b)[2 * i] + 256 * le16s(b)[2 * i + 1]);
    }
    assert(a =~= b);
}

/// The concatenation of a list of byte sequences.
pub open spec fn joined(nodes: Seq<Seq<u8>>) -> Seq<u8>
    decreases nodes.len(),
{
    if nodes.len() == 0 {
        Seq::empty()
    } else {
        joined(nodes.drop_last()) + nodes.last()
    }
}

/// Joining two lists joins what each of them joins to.
pub proof fn lemma_joined_concat(a: Seq<Seq<u8>>, b: Seq<Seq<u8>>)
    ensures
        joined(a + b) == joined(a) + joined(b),
    decreases b.len(),
{
    if b.len() == 0 {
        assert(a + b =~= a);
        assert(joined(a) + joined(b) =~= joined(a));
    } else {
        lemma_joined_concat(a, b.drop_last());
        assert((a + b).drop_last() =~= a + b.drop_last());
        assert(joined(a + b) =~= joined(a) + joined(b));
    }
}

/// Joining a list starts with its first element.
pub proof fn lemma_joined_first(nodes: Seq<Seq<u8>>)
    requires
        nodes.len() > 0,
    ensures
        joined(nodes) == nodes[0] + joined(nodes.drop_first()),
{
    let first = seq![nodes[0]];
    assert(nodes =~= first + nodes.drop_first());
    lemma_joined_concat(first, nodes.drop_first());
    assert(first.drop_last() =~= Seq::<Seq<u8>>::empty());
    assert(joined(first) =~= nodes[0]) by {
        reveal_with_fuel(joined, 2);
    }
}

/// A 16-bit number is the sum of its two bytes at their weights.
pub proof fn law_le16_adds_up(n: u16)
    ensures
        le16(n).len() == 2,
        le16(n)[0] + 256 * le16(n)[1] == n,
{
}

/// A 32-bit number is the sum of its four bytes at their weights.
pub proof fn law_le32_adds_up(n: u32)
    ensures
        le32(n).len() == 4,
        le32(n)[0] + 256 * le32(n)[1] + 65536 * le32(n)[2] + 16777216 * le32(n)[3] == n,
{
}

/// Every element of a list has its two bytes at its place, and there are no others.
pub proof fn law_le16s_adds_up(units: Seq<u16>, i: int)
    requires
        0 <= i < units.len(),
    ensures
        le16s(units).len() == 2 * units.len(),
        le16s(units)[2 * i] + 256 * le16s(units)[2 * i + 1] == units[i],
{
}

/// A list without elements has no bytes.
pub proof fn law_le16s_of_nothing()
    ensures
        le16s(Seq::empty()).len() == 0,
{
}

/// What a little-endian number of two, four and eight bytes is worth.
pub proof fn law_le_numbers_add_up(b: Seq<u8>, at: int)
    ensures
        le_number(b, at, 2) == b[at] + 256 * b[at + 1],
        le_number(b, at, 4) == b[at] + 256 * b[at + 1] + 65536 * b[at + 2] + 16777216 * b[at + 3],
        le_number(b, at, 8) == le_number(b, at, 4) + 4294967296 * le_number(b, at + 4, 4),
{
    reveal_with_fuel(le_number, 9);
}

/// What a big-endian number of two and four bytes is worth.
pub proof fn law_be_numbers_add_up(b: Seq<u8>, at: int)
    ensures
        be_number(b, at, 2) == 256 * b[at] + b[at + 1],
        be_number(b, at, 4) == 16777216 * b[at] + 65536 * b[at + 1] + 256 * b[at + 2] + b[at + 3],
{
    reveal_with_fuel(be_number, 5);
}

/// Joining keeps every byte, in order: one list is itself, and two lists of lists join
/// to what each of them joins to, one behind the other.
pub proof fn law_joining_keeps_everything(one: Seq<u8>, a: Seq<Seq<u8>>, b: Seq<Seq<u8>>)
    ensures
        joined(Seq::empty()) == Seq::<u8>::empty(),
        joined(seq![one]) == one,
        joined(a + b) == joined(a) + joined(b),
{
    lemma_joined_concat(a, b);
    lemma_joined_first(seq![one]);
    assert(seq![one].drop_first() =~= Seq::<Seq<u8>>::empty());
    assert(joined(seq![one]) =~= one);
}

} // verus!
