//! UEFI status codes as 64-bit integers, the width they have on the x86-64
//! firmware this targets. A machine with narrower words sees their low bits.

use vstd::prelude::*;

verus! {

/// `EFI_SUCCESS`.
pub const SUCCESS: u64 = 0;

/// `EFI_INVALID_PARAMETER`.
pub const INVALID_PARAMETER: u64 = 0x8000_0000_0000_0002;

/// `EFI_DEVICE_ERROR`.
pub const DEVICE_ERROR: u64 = 0x8000_0000_0000_0007;

/// `EFI_OUT_OF_RESOURCES`.
pub const OUT_OF_RESOURCES: u64 = 0x8000_0000_0000_0009;

/// `EFI_NOT_FOUND`.
pub const NOT_FOUND: u64 = 0x8000_0000_0000_000e;

/// `EFI_SECURITY_VIOLATION`.
pub const SECURITY_VIOLATION: u64 = 0x8000_0000_0000_001a;

/// The code that a firmware call reported, or that describes a failure here.
#[derive(Clone, Copy, PartialEq, Eq, Structural, Debug)]
pub struct Status(pub u64);

/// What `uefi::Status` prints for the low `word_bits` bits of the code, on a machine
/// with words of that width.
pub uninterp spec fn status_name(code: u64, word_bits: u32) -> Seq<char>;

/// The text of the `Display` impl of `uefi::Status`: the name of a code that
/// UEFI defines, or the number of any other.
#[verifier::external_body]
fn status_to_string(code: u64) -> (text: String)
    ensures
        text@ == status_name(code, usize::BITS),
{
    uefi::Status(code as usize).to_string()
}

/// The text of the `Display` impl of `uefi::Error` without payload: the name of
/// the status between fixed words. `uefi::Error::from` panics on success.
#[verifier::external_body]
fn error_to_string(code: u64) -> (text: String)
    requires
        code as usize != 0,
    ensures
        text@ == "UEFI Error "@ + status_name(code, usize::BITS) + ": ()"@,
{
    uefi::Error::from(uefi::Status(code as usize)).to_string()
}

impl Status {
    /// Whether this is what a failed call reports: as a word of the machine, it is
    /// not `EFI_SUCCESS`.
    pub open spec fn is_failure(self) -> bool {
        self.0 as usize != 0
    }

    /// The operator-facing name.
    pub open spec fn name_text(self) -> Seq<char> {
        status_name(self.0, usize::BITS)
    }

    /// The operator-facing name of this status.
    pub fn name(self) -> (text: String)
        ensures
            text@ == self.name_text(),
            text@ == status_name(self.0, usize::BITS),
    {
        status_to_string(self.0)
    }

    /// The operator-facing description of a call that failed with this status.
    pub fn describe_error(self) -> (text: String)
        requires
            self.is_failure(),
        ensures
            text@ == error_text(self),
    {
        error_to_string(self.0)
    }
}

/// How a call that failed with `status` is described.
pub open spec fn error_text(status: Status) -> Seq<char> {
    "UEFI Error "@ + status.name_text() + ": ()"@
}

/// A status prints as what `uefi` prints for its code, and a failed call as that
/// between the words that `uefi` puts around it, whatever the code is.
pub proof fn law_every_code_prints(code: u64)
    ensures
        Status(code).name_text() == status_name(code, usize::BITS),
        error_text(Status(code)) == "UEFI Error "@ + status_name(code, usize::BITS) + ": ()"@,
{
}

} // verus!
