//! Secret buffers that are zeroized on drop. `zeroize` also clears a Vec's spare
//! capacity, so a buffer that is preallocated before secrets are written, and
//! never grows past that, leaves no old reallocation behind. The contracts hold
//! every write to the preallocated length.

use vstd::prelude::*;

verus! {

/// Secret UEFI `CHAR16` code units.
#[verifier::external_body]
pub struct ScrubbedUnits {
    inner: zeroize::Zeroizing<Vec<u16>>,
}

/// The code units that the buffer holds.
pub uninterp spec fn held_units(buffer: ScrubbedUnits) -> Seq<u16>;

/// The number of code units that the buffer was preallocated for.
pub uninterp spec fn units_limit(buffer: ScrubbedUnits) -> nat;

/// `Zeroizing::new` around a `Vec` of the given capacity: it holds nothing. That
/// dropping it clears the memory is not stated.
#[verifier::external_body]
fn new_units(limit: usize) -> (buffer: ScrubbedUnits)
    requires
        2 * limit <= isize::MAX,
    ensures
        held_units(buffer) == Seq::<u16>::empty(),
        units_limit(buffer) == limit,
{
    ScrubbedUnits { inner: zeroize::Zeroizing::new(Vec::with_capacity(limit)) }
}

/// `Vec::push` on the wrapped vector, which appends in place while the length is
/// below the preallocated capacity.
#[verifier::external_body]
fn push_unit(buffer: &mut ScrubbedUnits, unit: u16)
    requires
        held_units(*old(buffer)).len() < units_limit(*old(buffer)),
    ensures
        held_units(*final(buffer)) == held_units(*old(buffer)).push(unit),
        units_limit(*final(buffer)) == units_limit(*old(buffer)),
{
    buffer.inner.push(unit);
}

/// Assignment to one element of the wrapped vector, which changes no other.
#[verifier::external_body]
fn set_unit(buffer: &mut ScrubbedUnits, index: usize, unit: u16)
    requires
        index < held_units(*old(buffer)).len(),
    ensures
        held_units(*final(buffer)) == held_units(*old(buffer)).update(index as int, unit),
        units_limit(*final(buffer)) == units_limit(*old(buffer)),
{
    buffer.inner[index] = unit;
}

/// `Vec::truncate` on the wrapped vector, which keeps the first `len` elements
/// and the allocation. What it cuts off stays in memory, so that has to be zero.
#[verifier::external_body]
fn truncate_units(buffer: &mut ScrubbedUnits, len: usize)
    requires
        len <= held_units(*old(buffer)).len(),
        forall|i: int|
            len <= i < held_units(*old(buffer)).len() ==> held_units(*old(buffer))[i] == 0,
    ensures
        held_units(*final(buffer)) == held_units(*old(buffer)).take(len as int),
        units_limit(*final(buffer)) == units_limit(*old(buffer)),
{
    buffer.inner.truncate(len);
}

/// `Zeroizing`'s `Deref` to the wrapped vector, as a slice of all it holds.
#[verifier::external_body]
fn unit_slice(buffer: &ScrubbedUnits) -> (units: &[u16])
    ensures
        units@ == held_units(*buffer),
{
    buffer.inner.as_slice()
}

impl View for ScrubbedUnits {
    type V = Seq<u16>;

    open spec fn view(&self) -> Seq<u16> {
        held_units(*self)
    }
}

impl ScrubbedUnits {
    /// The number of code units that fit without reallocation.
    pub open spec fn limit(self) -> nat {
        units_limit(self)
    }

    /// An empty buffer with room for `limit` code units.
    pub fn with_limit(limit: usize) -> (buffer: ScrubbedUnits)
        requires
            2 * limit <= isize::MAX,
        ensures
            buffer@ == Seq::<u16>::empty(),
            buffer.limit() == limit,
    {
        new_units(limit)
    }

    /// Appends a code unit, within the preallocated room.
    pub fn push(&mut self, unit: u16)
        requires
            old(self)@.len() < old(self).limit(),
        ensures
            final(self)@ == old(self)@.push(unit),
            final(self).limit() == old(self).limit(),
    {
        push_unit(self, unit);
    }

    /// Removes the last code unit, overwriting it with zero first. What the memory
    /// behind the end holds then is not stated.
    pub fn erase_last(&mut self)
        requires
            old(self)@.len() > 0,
        ensures
            final(self)@ == old(self)@.drop_last(),
            final(self).limit() == old(self).limit(),
    {
        let last: usize = self.len() - 1;
        set_unit(self, last, 0);
        truncate_units(self, last);
        assert(self@ =~= old(self)@.drop_last());
    }

    /// The number of code units held.
    pub fn len(&self) -> (n: usize)
        ensures
            n == self@.len(),
    {
        unit_slice(self).len()
    }

    /// The code units held.
    pub fn as_slice(&self) -> (units: &[u16])
        ensures
            units@ == self@,
    {
        unit_slice(self)
    }
}

/// Secret bytes.
#[verifier::external_body]
pub struct ScrubbedBytes {
    inner: zeroize::Zeroizing<Vec<u8>>,
}

/// The bytes that the buffer holds.
pub uninterp spec fn held_bytes(buffer: ScrubbedBytes) -> Seq<u8>;

/// The number of bytes that the buffer was preallocated for.
pub uninterp spec fn bytes_limit(buffer: ScrubbedBytes) -> nat;

/// `Zeroizing::new` around a `Vec` of the given capacity: it holds nothing. That
/// dropping it clears the memory is not stated.
#[verifier::external_body]
fn new_bytes(limit: usize) -> (buffer: ScrubbedBytes)
    requires
        limit <= isize::MAX,
    ensures
        held_bytes(buffer) == Seq::<u8>::empty(),
        bytes_limit(buffer) == limit,
{
    ScrubbedBytes { inner: zeroize::Zeroizing::new(Vec::with_capacity(limit)) }
}

/// `Vec::extend_from_slice` on the wrapped vector, which appends in place while
/// the new length is within the preallocated capacity.
#[verifier::external_body]
fn extend_bytes(buffer: &mut ScrubbedBytes, bytes: &[u8])
    requires
        held_bytes(*old(buffer)).len() + bytes@.len() <= bytes_limit(*old(buffer)),
    ensures
        held_bytes(*final(buffer)) == held_bytes(*old(buffer)) + bytes@,
        bytes_limit(*final(buffer)) == bytes_limit(*old(buffer)),
{
    buffer.inner.extend_from_slice(bytes);
}

/// `Vec::resize` on the wrapped vector to a length that is not below the current
/// one and within the preallocated capacity: the new elements are `fill`.
#[verifier::external_body]
fn resize_bytes(buffer: &mut ScrubbedBytes, len: usize, fill: u8)
    requires
        held_bytes(*old(buffer)).len() <= len <= bytes_limit(*old(buffer)),
    ensures
        held_bytes(*final(buffer)) == held_bytes(*old(buffer)) + Seq::new(
            (len - held_bytes(*old(buffer)).len()) as nat,
            |i: int| fill,
        ),
        bytes_limit(*final(buffer)) == bytes_limit(*old(buffer)),
{
    buffer.inner.resize(len, fill);
}

/// `Zeroizing`'s `Deref` to the wrapped vector, as a slice of all it holds.
#[verifier::external_body]
fn byte_slice(buffer: &ScrubbedBytes) -> (bytes: &[u8])
    ensures
        bytes@ == held_bytes(*buffer),
{
    buffer.inner.as_slice()
}

/// `Zeroizing`'s `DerefMut` to the wrapped vector, as a mutable slice of all it
/// holds: what is written through the slice is what the buffer holds afterwards.
#[verifier::external_body]
fn byte_slice_mut(buffer: &mut ScrubbedBytes) -> (bytes: &mut [u8])
    ensures
        bytes@ == held_bytes(*old(buffer)),
        held_bytes(*final(buffer)) == final(bytes)@,
        bytes_limit(*final(buffer)) == bytes_limit(*old(buffer)),
{
    buffer.inner.as_mut_slice()
}

impl View for ScrubbedBytes {
    type V = Seq<u8>;

    open spec fn view(&self) -> Seq<u8> {
        held_bytes(*self)
    }
}

impl ScrubbedBytes {
    /// The number of bytes that fit without reallocation.
    pub open spec fn limit(self) -> nat {
        bytes_limit(self)
    }

    /// An empty buffer with room for `limit` bytes.
    pub fn with_limit(limit: usize) -> (buffer: ScrubbedBytes)
        requires
            limit <= isize::MAX,
        ensures
            buffer@ == Seq::<u8>::empty(),
            buffer.limit() == limit,
    {
        new_bytes(limit)
    }

    /// A buffer of `len` zero bytes.
    pub fn zeroed(len: usize) -> (buffer: ScrubbedBytes)
        requires
            len <= isize::MAX,
        ensures
            buffer@ == Seq::new(len as nat, |i: int| 0u8),
            buffer.limit() == len,
    {
        let mut buffer = new_bytes(len);
        resize_bytes(&mut buffer, len, 0);
        assert(buffer@ =~= Seq::new(len as nat, |i: int| 0u8));
        buffer
    }

    /// Appends bytes, within the preallocated room.
    pub fn extend(&mut self, bytes: &[u8])
        requires
            old(self)@.len() + bytes@.len() <= old(self).limit(),
        ensures
            final(self)@ == old(self)@ + bytes@,
            final(self).limit() == old(self).limit(),
    {
        extend_bytes(self, bytes);
    }

    /// The bytes held.
    pub fn as_slice(&self) -> (bytes: &[u8])
        ensures
            bytes@ == self@,
    {
        byte_slice(self)
    }

    /// The bytes held, to be overwritten in place.
    pub fn as_mut_slice(&mut self) -> (bytes: &mut [u8])
        ensures
            bytes@ == old(self)@,
            final(self)@ == final(bytes)@,
            final(self).limit() == old(self).limit(),
    {
        byte_slice_mut(self)
    }
}

} // verus!
