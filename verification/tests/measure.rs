use pinnacle::log::{Level, Record};
use pinnacle::measure::{
    derive_hash, derive_pin_hash, extend_pin_to_pcr, extend_request, pin_salt, Costs,
    ARGON2_LANES, ARGON2_MEM_KIB, ARGON2_TIME, DOMAIN_PREFIX, EFI_ACTION, EFI_TCG2_EXTEND_ONLY,
    EVENT_TEXT, FALLBACK_SALT, PIN_HASH_LEN, PIN_PCR_INDEX,
};
use pinnacle::status::{Status, INVALID_PARAMETER, OUT_OF_RESOURCES};
use pinnacle::text::hex_text;

/// `password` as little-endian pairs of bytes.
const PASSWORD: [u16; 4] = [0x6170, 0x7373, 0x6f77, 0x6472];

fn small(lanes: u32) -> Costs {
    Costs { mem_kib: 256, passes: 2, lanes, tag_len: 32 }
}

fn lines(records: &[Record]) -> Vec<(Level, &str)> {
    records.iter().map(|r| (r.level, r.message.as_str())).collect()
}

#[test]
fn constants_spell_their_texts() {
    assert_eq!(&DOMAIN_PREFIX, b"pinnacle");
    assert_eq!(&EVENT_TEXT, b"pinnacle secret PIN measurement was extended\0");
    assert_eq!(&FALLBACK_SALT, b"pinnacle-of-engineering");
    assert_eq!(PIN_PCR_INDEX, 15);
    assert_eq!((ARGON2_MEM_KIB, ARGON2_TIME, ARGON2_LANES), (64 * 1024, 64, 1));
    assert_eq!(PIN_HASH_LEN, 32);
}

#[test]
fn constants_are_those_of_the_firmware() {
    assert_eq!(EFI_ACTION, uefi::proto::tcg::EventType::EFI_ACTION.0);
    assert_eq!(
        EFI_TCG2_EXTEND_ONLY,
        uefi::proto::tcg::v2::HashLogExtendEventFlags::EFI_TCG2_EXTEND_ONLY.bits()
    );
}

#[test]
fn the_hash_is_argon2id_of_the_little_endian_pin() {
    let one = derive_hash(small(1), b"somesalt", &PASSWORD).ok().unwrap();
    assert_eq!(
        hex_text(one.as_slice()),
        "9dfeb910e80bad0311fee20f9c0e2b12c17987b4cac90c2ef54d5b3021c68bfe"
    );
    let two = derive_hash(small(2), b"somesalt", &PASSWORD).ok().unwrap();
    assert_eq!(
        hex_text(two.as_slice()),
        "6d093c501fd5999645e0ea3bf620d7b8be7fd2db59c20d9fff9539da2bf57037"
    );
}

#[test]
fn the_hash_depends_on_pin_and_salt() {
    let pin = derive_hash(small(1), b"somesalt", &[0x31]).ok().unwrap();
    let other_pin = derive_hash(small(1), b"somesalt", &[0x3100]).ok().unwrap();
    let other_salt = derive_hash(small(1), b"othersalt", &[0x31]).ok().unwrap();
    assert_ne!(pin.as_slice(), other_pin.as_slice());
    assert_ne!(pin.as_slice(), other_salt.as_slice());
    assert_eq!(pin.as_slice().len(), 32);
}

#[test]
fn unacceptable_costs_are_an_invalid_parameter() {
    for costs in [
        Costs { mem_kib: 7, passes: 2, lanes: 1, tag_len: 32 },
        Costs { mem_kib: 15, passes: 2, lanes: 2, tag_len: 32 },
        Costs { mem_kib: 256, passes: 0, lanes: 1, tag_len: 32 },
        Costs { mem_kib: 256, passes: 2, lanes: 0, tag_len: 32 },
        Costs { mem_kib: 256, passes: 2, lanes: 1, tag_len: 3 },
    ] {
        let fatal = derive_hash(costs, b"somesalt", &PASSWORD).err().unwrap();
        assert_eq!(fatal.status, Status(INVALID_PARAMETER));
        assert_eq!(fatal.message, "unexpected error: INVALID_PARAMETER");
    }
    assert!(derive_hash(
        Costs { mem_kib: 8, passes: 1, lanes: 1, tag_len: 4 },
        b"somesalt",
        &[]
    )
    .is_ok());
}

#[test]
fn a_short_salt_is_refused() {
    let fatal = derive_hash(small(1), b"7 bytes", &PASSWORD).err().unwrap();
    assert_eq!(fatal.status, Status(OUT_OF_RESOURCES));
    assert_eq!(fatal.message, "unexpected error: OUT_OF_RESOURCES");
    assert!(derive_pin_hash(b"7 bytes", &PASSWORD).is_err());
    assert!(extend_pin_to_pcr(b"7 bytes", &PASSWORD, false).is_err());
}

#[test]
fn the_measurement_is_prefix_index_and_hash() {
    let hash = [0xabu8; 32];
    let request = extend_request(&hash, false);
    assert_eq!(request.pcr_index, 15);
    assert_eq!(request.event_type, 0x8000_0007);
    assert_eq!(request.event_text, EVENT_TEXT.to_vec());
    assert_eq!(request.flags, 1);
    let mut expected = b"pinnacle\x0f\x00\x00\x00".to_vec();
    expected.extend_from_slice(&hash);
    assert_eq!(request.data.as_slice(), expected.as_slice());
    assert_eq!(extend_request(&hash, true).flags, 0);
}

#[test]
fn the_salt_is_the_uuid() {
    let mut uuid = [0u8; 16];
    uuid[15] = 0x1f;
    let salt = pin_salt(Some(uuid));
    assert_eq!(salt.bytes, uuid.to_vec());
    assert_eq!(
        lines(&salt.records),
        vec![(Level::Debug, "SMBIOS system UUID: 0000000000000000000000000000001f")]
    );
}

#[test]
fn a_trivial_uuid_gives_the_fallback_salt() {
    for value in [0x00u8, 0xff] {
        let salt = pin_salt(Some([value; 16]));
        assert_eq!(salt.bytes, b"pinnacle-of-engineering".to_vec());
        assert_eq!(
            lines(&salt.records),
            vec![
                (
                    Level::Debug,
                    format!("SMBIOS system UUID: {}", hex_text(&[value; 16])).as_str()
                ),
                (Level::Warn, "SMBIOS system UUID is trivial, using fallback salt"),
            ]
        );
    }
    assert_eq!(pin_salt(Some([0x01; 16])).bytes, vec![0x01; 16]);
}

#[test]
fn a_missing_uuid_gives_the_fallback_salt() {
    let salt = pin_salt(None);
    assert_eq!(salt.bytes, FALLBACK_SALT.to_vec());
    assert_eq!(
        lines(&salt.records),
        vec![
            (Level::Error, "SMBIOS system UUID: <read failed>"),
            (Level::Warn, "SMBIOS system UUID not found, using fallback salt"),
        ]
    );
}
