//! Whether the TPM can take the measurement.

use vstd::prelude::*;

use crate::log::Fatal;
use crate::log::FatalView;
use crate::log::unexpected;
use crate::status::NOT_FOUND;
use crate::status::SECURITY_VIOLATION;
use crate::status::Status;

verus! {

/// The bit of the SHA-256 bank in a bitmap of PCR banks.
pub const BANK_SHA256: u32 = 0x2;

/// What asking the firmware for the TPM gave.
#[derive(Clone, Copy, PartialEq, Eq, Structural, Debug)]
pub enum TpmProbe {
    /// No device has the TCG2 protocol.
    NoProtocol,
    /// The protocol could not be opened, or did not report its capability.
    Failed(Status),
    /// What the protocol reported.
    Capability { present: bool, active_banks: u32 },
}

/// Whether the TPM is present with an active SHA-256 bank.
pub open spec fn tpm_ready(probe: TpmProbe) -> bool {
    match probe {
        TpmProbe::Capability { present, active_banks } => present && active_banks & BANK_SHA256
            != 0,
        _ => false,
    }
}

/// Why the boot stops, if it does.
pub open spec fn tpm_failure(probe: TpmProbe) -> Option<FatalView> {
    match probe {
        TpmProbe::NoProtocol => Some(
            FatalView {
                status: Status(NOT_FOUND),
                message: "no TCG2 protocol, is the TPM enabled in firmware?"@,
            },
        ),
        TpmProbe::Failed(status) => Some(unexpected(status)),
        TpmProbe::Capability { present, active_banks } => if !present {
            Some(
                FatalView {
                    status: Status(NOT_FOUND),
                    message: "TPM not present, enable it in firmware setup"@,
                },
            )
        } else if active_banks & BANK_SHA256 == 0 {
            Some(
                FatalView {
                    status: Status(SECURITY_VIOLATION),
                    message: "SHA-256 PCR bank not active, enable it in firmware setup"@,
                },
            )
        } else {
            None
        },
    }
}

fn fatal(status: u64, message: &str) -> (f: Fatal)
    ensures
        f@ == (FatalView { status: Status(status), message: message@ }),
{
    let mut text = String::new();
    text.append(message);
    assert(text@ =~= message@);
    Fatal::new(Status(status), text)
}

/// Verify the TPM is present with an active SHA-256 PCR bank.
pub fn open_tpm(probe: TpmProbe) -> (r: Result<(), Fatal>)
    ensures
        match r {
            Ok(()) => tpm_failure(probe) is None,
            Err(fatal) => tpm_failure(probe) == Some(fatal@),
        },
{
    match probe {
        TpmProbe::NoProtocol => Err(
            fatal(NOT_FOUND, "no TCG2 protocol, is the TPM enabled in firmware?"),
        ),
        TpmProbe::Failed(status) => Err(Fatal::from(status)),
        TpmProbe::Capability { present, active_banks } => {
            if !present {
                return Err(fatal(NOT_FOUND, "TPM not present, enable it in firmware setup"));
            }
            // Extending covers every active PCR bank, so require SHA-256. This is a
            // reasonable assumption to avoid falling back to only SHA-1.

            if active_banks & BANK_SHA256 == 0 {
                return Err(
                    fatal(
                        SECURITY_VIOLATION,
                        "SHA-256 PCR bank not active, enable it in firmware setup",
                    ),
                );
            }
            Ok(())
        },
    }
}

/// The TPM is taken exactly if it is present with an active SHA-256 bank, whatever
/// other banks are active.
pub proof fn law_tpm_is_taken_iff_sha256_is_active(probe: TpmProbe)
    ensures
        tpm_failure(probe) is None <==> tpm_ready(probe),
{
}

/// What is said of each TPM that is refused: a failure keeps its status whatever it
/// is, an absent TPM is not found whatever banks it reports, and a TPM without an
/// active SHA-256 bank is a security violation whatever other banks are active.
pub proof fn law_refused_tpms_are_told_apart(status: Status, present: bool, active_banks: u32)
    ensures
        tpm_failure(TpmProbe::NoProtocol) == Some(
            FatalView {
                status: Status(NOT_FOUND),
                message: "no TCG2 protocol, is the TPM enabled in firmware?"@,
            },
        ),
        tpm_failure(TpmProbe::Failed(status)) == Some(unexpected(status)),
        ({
            let failure = tpm_failure(TpmProbe::Capability { present, active_banks });
            &&& failure is None <==> present && active_banks & 2 == 2
            &&& !present ==> failure == Some(
                FatalView {
                    status: Status(NOT_FOUND),
                    message: "TPM not present, enable it in firmware setup"@,
                },
            )
            &&& present && active_banks & 2 != 2 ==> failure == Some(
                FatalView {
                    status: Status(SECURITY_VIOLATION),
                    message: "SHA-256 PCR bank not active, enable it in firmware setup"@,
                },
            )
        }),
{
    assert(active_banks & 2 == 0 || active_banks & 2 == 2) by (bit_vector);
}

} // verus!
