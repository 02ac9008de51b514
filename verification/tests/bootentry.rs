use pinnacle::bootentry::{
    boot_entry, build_option, entry_name, entry_number, first_free, is_listed, is_ours, same_bytes,
    scan, Variable, DESCRIPTION_BYTES, GLOBAL_VARIABLE,
};

fn utf16(text: &str) -> Vec<u16> {
    text.encode_utf16().collect()
}

#[test]
fn the_vendor_is_that_of_the_firmware() {
    assert_eq!(
        GLOBAL_VARIABLE,
        uefi::runtime::VariableVendor::GLOBAL_VARIABLE.0.to_bytes()
    );
}

#[test]
fn the_description_is_the_name_in_ucs_2() {
    let mut expected = Vec::new();
    for unit in utf16("pinnacle\0") {
        expected.extend_from_slice(&unit.to_le_bytes());
    }
    assert_eq!(DESCRIPTION_BYTES.to_vec(), expected);
}

#[test]
fn an_option_holds_attributes_length_description_and_path() {
    let option = build_option(&[0x7f, 0xff, 0x04, 0x00]);
    assert_eq!(&option[..6], &[0x01, 0x00, 0x00, 0x00, 0x04, 0x00]);
    assert_eq!(&option[6..24], &DESCRIPTION_BYTES);
    assert_eq!(&option[24..], &[0x7f, 0xff, 0x04, 0x00]);
    let long = build_option(&vec![0u8; 0x1_0203]);
    assert_eq!(&long[4..6], &[0x03, 0x02]);
}

#[test]
fn built_options_are_recognized() {
    assert!(is_ours(&build_option(&[])));
    let mut other = build_option(&[1, 2, 3]);
    other[6] = b'P';
    assert!(!is_ours(&other));
    assert!(!is_ours(&build_option(&[])[..23]));
    assert!(!is_ours(&[]));
    let mut longer = build_option(&[]);
    longer[22] = b'!';
    assert!(!is_ours(&longer));
}

#[test]
fn entry_names_are_parsed() {
    assert_eq!(entry_number(&utf16("Boot0000")), Some(0));
    assert_eq!(entry_number(&utf16("BootABCD")), Some(0xabcd));
    assert_eq!(entry_number(&utf16("Boot00ff")), Some(0x00ff));
    assert_eq!(entry_number(&utf16("BootFFFF")), Some(0xffff));
    for name in ["BootOrder", "Boot000", "Boot00000", "boot0000", "Boot00G0", "Boot 000", "Boot-001", ""] {
        assert_eq!(entry_number(&utf16(name)), None);
    }
}

#[test]
fn entry_names_parse_back() {
    for number in [0u16, 1, 0x000a, 0x01f0, 0xabcd, u16::MAX] {
        let name = entry_name(number);
        assert_eq!(name, utf16(&format!("Boot{number:04X}\0")));
        assert_eq!(entry_number(&name[..8]), Some(number));
    }
}

#[test]
fn the_lowest_free_index_is_found() {
    assert_eq!(first_free(&[]), Some(0));
    assert_eq!(first_free(&[1, 2]), Some(0));
    assert_eq!(first_free(&[2, 0, 1, 0, 4]), Some(3));
    assert!(is_listed(&[2, 0], 0));
    assert!(!is_listed(&[2, 0], 1));
    assert!(same_bytes(&[1, 2], &[1, 2]));
    assert!(!same_bytes(&[1, 2], &[1, 3]));
    assert!(!same_bytes(&[1, 2], &[1]));
}

#[test]
fn there_may_be_no_free_index() {
    let all: Vec<u16> = (0..=u16::MAX).collect();
    assert_eq!(first_free(&all), None);
    assert_eq!(first_free(&all[..65535]), Some(0xffff));
}

#[test]
fn a_scan_lists_own_entries_and_used_indices() {
    let ours = build_option(&[9]);
    let variables = vec![
        Variable { vendor: GLOBAL_VARIABLE, name: utf16("BootOrder"), value: Some(ours.clone()) },
        Variable { vendor: GLOBAL_VARIABLE, name: utf16("Boot0007"), value: Some(ours.clone()) },
        Variable { vendor: [0; 16], name: utf16("Boot0001"), value: Some(ours.clone()) },
        Variable { vendor: GLOBAL_VARIABLE, name: utf16("Boot0002"), value: Some(vec![1; 40]) },
        Variable { vendor: GLOBAL_VARIABLE, name: utf16("Boot0003"), value: None },
    ];
    let found = scan(&variables);
    assert_eq!(found.used, vec![7, 2, 3]);
    assert_eq!(found.ours.len(), 1);
    assert_eq!(found.ours[0].number, 7);
    assert_eq!(found.ours[0].option, ours);
    assert_eq!(boot_entry(&GLOBAL_VARIABLE, &utf16("Boot0010")), Some(0x10));
    assert_eq!(boot_entry(&[0; 16], &utf16("Boot0010")), None);
}

#[test]
fn lowercase_names_are_read_and_uppercase_names_are_written() {
    assert_eq!(entry_number(&utf16("Boot00af")), Some(0x00af));
    assert_eq!(entry_number(&utf16("Boot00aF")), Some(0x00af));
    assert_eq!(entry_name(0x00af), utf16("Boot00AF\0"));
}
