use pinnacle::status::{Status, DEVICE_ERROR, NOT_FOUND, SECURITY_VIOLATION};
use pinnacle::tpm::{open_tpm, TpmProbe, BANK_SHA256};

fn refusal(probe: TpmProbe) -> (Status, String) {
    let fatal = open_tpm(probe).err().unwrap();
    (fatal.status, fatal.message)
}

#[test]
fn the_bank_bit_is_that_of_the_firmware() {
    assert_eq!(BANK_SHA256, uefi::proto::tcg::HashAlgorithm::SHA256.bits());
}

#[test]
fn a_tpm_with_sha256_is_taken() {
    for active_banks in [0x02, 0x03, 0x06, 0x1f] {
        assert!(open_tpm(TpmProbe::Capability { present: true, active_banks }).is_ok());
    }
}

#[test]
fn other_tpms_are_refused() {
    assert_eq!(
        refusal(TpmProbe::NoProtocol),
        (
            Status(NOT_FOUND),
            String::from("no TCG2 protocol, is the TPM enabled in firmware?")
        )
    );
    assert_eq!(
        refusal(TpmProbe::Failed(Status(DEVICE_ERROR))),
        (Status(DEVICE_ERROR), String::from("unexpected error: DEVICE_ERROR"))
    );
    assert_eq!(
        refusal(TpmProbe::Capability { present: false, active_banks: 0x02 }),
        (Status(NOT_FOUND), String::from("TPM not present, enable it in firmware setup"))
    );
    for active_banks in [0x00, 0x01, 0x1d] {
        assert_eq!(
            refusal(TpmProbe::Capability { present: true, active_banks }),
            (
                Status(SECURITY_VIOLATION),
                String::from("SHA-256 PCR bank not active, enable it in firmware setup")
            )
        );
    }
}
