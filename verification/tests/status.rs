use pinnacle::status::{
    Status, DEVICE_ERROR, INVALID_PARAMETER, NOT_FOUND, OUT_OF_RESOURCES, SECURITY_VIOLATION,
    SUCCESS,
};

#[test]
fn codes_are_those_of_the_firmware() {
    assert_eq!(SUCCESS, uefi::Status::SUCCESS.0 as u64);
    assert_eq!(INVALID_PARAMETER, uefi::Status::INVALID_PARAMETER.0 as u64);
    assert_eq!(DEVICE_ERROR, uefi::Status::DEVICE_ERROR.0 as u64);
    assert_eq!(OUT_OF_RESOURCES, uefi::Status::OUT_OF_RESOURCES.0 as u64);
    assert_eq!(NOT_FOUND, uefi::Status::NOT_FOUND.0 as u64);
    assert_eq!(SECURITY_VIOLATION, uefi::Status::SECURITY_VIOLATION.0 as u64);
}

#[test]
fn known_codes_have_names() {
    assert_eq!(Status(SUCCESS).name(), "SUCCESS");
    assert_eq!(Status(NOT_FOUND).name(), "NOT_FOUND");
    assert_eq!(Status(DEVICE_ERROR).name(), "DEVICE_ERROR");
    assert_eq!(Status(SECURITY_VIOLATION).name(), "SECURITY_VIOLATION");
}

#[test]
fn failed_calls_are_described_by_their_status() {
    assert_eq!(Status(NOT_FOUND).describe_error(), "UEFI Error NOT_FOUND: ()");
    assert_eq!(Status(OUT_OF_RESOURCES).describe_error(), "UEFI Error OUT_OF_RESOURCES: ()");
    assert_eq!(
        Status(0x1234).describe_error(),
        format!("UEFI Error {}: ()", Status(0x1234).name())
    );
}
