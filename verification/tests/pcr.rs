use pinnacle::log::Level;
use pinnacle::pcr::{assert_clean, debug, read_command, read_sha256, RESPONSE_LEN};
use pinnacle::status::{Status, DEVICE_ERROR, SECURITY_VIOLATION};

fn response(selections: &[&[u8]], digests: u32, size: u16, digest: &[u8]) -> [u8; 128] {
    let mut bytes = vec![0x80, 0x01, 0, 0, 0, 62, 0, 0, 0, 0, 0, 0, 0, 9];
    bytes.extend_from_slice(&(selections.len() as u32).to_be_bytes());
    for selection in selections {
        bytes.extend_from_slice(&[0x00, 0x0b, selection.len() as u8]);
        bytes.extend_from_slice(selection);
    }
    bytes.extend_from_slice(&digests.to_be_bytes());
    bytes.extend_from_slice(&size.to_be_bytes());
    bytes.extend_from_slice(digest);
    let mut out = [0u8; 128];
    out[..bytes.len()].copy_from_slice(&bytes);
    out
}

fn digest() -> [u8; 32] {
    let mut d = [0u8; 32];
    for i in 0..32 {
        d[i] = 0xe0 ^ i as u8;
    }
    d
}

#[test]
fn the_command_selects_the_pin_pcr() {
    assert_eq!(
        read_command(15),
        Some([
            0x80, 0x01, 0x00, 0x00, 0x00, 0x14, 0x00, 0x00, 0x01, 0x7e, 0x00, 0x00, 0x00, 0x01,
            0x00, 0x0b, 0x03, 0x00, 0x80, 0x00,
        ])
    );
}

#[test]
fn the_command_selects_one_pcr_of_24() {
    for index in 0..24u32 {
        let command = read_command(index).unwrap();
        for n in 0..24usize {
            let bit = command[17 + n / 8] >> (n % 8) & 1;
            assert_eq!(bit == 1, n as u32 == index);
        }
    }
    assert_eq!(read_command(24), None);
    assert_eq!(read_command(u32::MAX), None);
}

#[test]
fn the_digest_is_read_from_the_response() {
    assert_eq!(RESPONSE_LEN, 128);
    let one = response(&[&[0x00, 0x80, 0x00]], 1, 32, &digest());
    assert_eq!(read_sha256(Some(one)), Some(digest()));
    let more = response(&[&[0x00, 0x80, 0x00], &[0x01], &[]], 2, 32, &digest());
    assert_eq!(read_sha256(Some(more)), Some(digest()));
    assert_eq!(read_sha256(Some(response(&[], 1, 32, &digest()))), Some(digest()));
}

#[test]
fn faulty_responses_are_refused() {
    assert_eq!(read_sha256(None), None);
    let good = response(&[&[0x00, 0x80, 0x00]], 1, 32, &digest());
    for at in 6..10 {
        let mut failed = good;
        failed[at] = 1;
        assert_eq!(read_sha256(Some(failed)), None);
    }
    assert_eq!(read_sha256(Some(response(&[&[0, 128, 0]], 0, 32, &digest()))), None);
    assert_eq!(read_sha256(Some(response(&[&[0, 128, 0]], 1, 20, &digest()))), None);
    assert_eq!(read_sha256(Some(response(&[&[0; 70]], 1, 32, &[]))), None);
    let fits = response(&[&[0; 69]], 1, 32, &digest());
    assert_eq!(read_sha256(Some(fits)), Some(digest()));
    let mut endless = good;
    endless[14..18].copy_from_slice(&[0xff; 4]);
    assert_eq!(read_sha256(Some(endless)), None);
    let mut long = good;
    long[20] = 0xff;
    assert_eq!(read_sha256(Some(long)), None);
    assert_eq!(read_sha256(Some([0; 128])), None);
}

#[test]
fn only_an_all_zero_pcr_is_clean() {
    let clean = assert_clean(Some([0; 32]));
    assert!(clean.outcome.is_ok());
    assert_eq!(clean.records.len(), 1);
    assert_eq!(clean.records[0].level, Level::Debug);
    assert_eq!(clean.records[0].message, format!("PCR[15]: {}", "00".repeat(32)));

    let mut dirty = [0; 32];
    dirty[31] = 1;
    let refused = assert_clean(Some(dirty));
    assert_eq!(refused.records[0].message, format!("PCR[15]: {}01", "00".repeat(31)));
    let fatal = refused.outcome.err().unwrap();
    assert_eq!(fatal.status, Status(SECURITY_VIOLATION));
    assert_eq!(
        fatal.message,
        "PCR[15] already extended, did a boot loop re-enter pinnacle?"
    );
}

#[test]
fn an_unreadable_pcr_is_fatal() {
    let check = assert_clean(None);
    assert_eq!(check.records.len(), 0);
    let fatal = check.outcome.err().unwrap();
    assert_eq!(fatal.status, Status(DEVICE_ERROR));
    assert_eq!(fatal.message, "could not read PCR[15], the TPM may be faulty");
}

#[test]
fn the_extended_value_is_logged() {
    let line = debug(Some(digest())).unwrap();
    assert_eq!(line.level, Level::Debug);
    assert!(line.message.starts_with("PCR[15]: e0e1e2e3"));
    let failed = debug(None).unwrap();
    assert_eq!(failed.level, Level::Error);
    assert_eq!(failed.message, "PCR[15]: <read failed>");
}
