//! UCS-2 strings as UEFI takes them: 16-bit code units with a NUL terminator.

use vstd::prelude::*;

verus! {

/// Whether UCS-2 has a code unit for every character, and none of them is NUL.
pub open spec fn representable(text: Seq<char>) -> bool {
    forall|i: int| 0 <= i < text.len() ==> 0 < #[trigger] text[i] as u32 <= 0xffff
}

/// The code units of a text that UCS-2 can represent.
pub open spec fn code_units(text: Seq<char>) -> Seq<u16> {
    text.map_values(|c: char| c as u16)
}

#[verifier::external_type_specification]
#[verifier::external_body]
pub struct ExFromStrError(uefi::data_types::FromStrError);

/// `CString16::try_from` on a `&str`: it succeeds exactly on representable texts,
/// and gives the code units with a NUL appended.
#[verifier::external_body]
pub(crate) fn to_ucs2(text: &str) -> (r: Result<Vec<u16>, uefi::data_types::FromStrError>)
    ensures
        r is Ok <==> representable(text@),
        r matches Ok(units) ==> units@ == code_units(text@).push(0),
{
    uefi::CString16::try_from(text).map(|s| s.to_u16_slice_with_nul().to_vec())
}

/// Every character becomes the code unit of its own number.
pub proof fn law_code_units_keep_every_character(text: Seq<char>, i: int)
    requires
        0 <= i < text.len(),
    ensures
        code_units(text).len() == text.len(),
        code_units(text)[i] == text[i] as u16,
{
}

} // verus!
