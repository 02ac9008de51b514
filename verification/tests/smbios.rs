use pinnacle::smbios::{
    locate_smbios, read_smbios_uuid, structure_table, EntryPoint, Region, SMBIOS3_GUID,
    SMBIOS_GUID,
};
use uefi::table::cfg::ConfigTableEntry;

fn other() -> Vec<u8> {
    let mut s = vec![0x00, 0x06, 0x00, 0x00, 0xaa, 0xbb];
    s.extend_from_slice(b"BIOS vendor\0version\0\0");
    s
}

fn system(uuid: [u8; 16]) -> Vec<u8> {
    let mut s = vec![0x01, 0x1b, 0x01, 0x00, 0x01, 0x02, 0x03, 0x04];
    s.extend_from_slice(&uuid);
    s.extend_from_slice(&[0x06, 0x05, 0x06]);
    s.extend_from_slice(b"maker\0\0");
    s
}

fn uuid() -> [u8; 16] {
    let mut u = [0u8; 16];
    for i in 0..16 {
        u[i] = 0x10 + i as u8;
    }
    u
}

#[test]
fn guids_are_those_of_the_firmware() {
    assert_eq!(SMBIOS3_GUID, ConfigTableEntry::SMBIOS3_GUID.to_bytes());
    assert_eq!(SMBIOS_GUID, ConfigTableEntry::SMBIOS_GUID.to_bytes());
}

#[test]
fn the_64_bit_entry_point_is_preferred() {
    let x = [9u8; 16];
    assert_eq!(locate_smbios(&[]), None);
    assert_eq!(locate_smbios(&[x, x]), None);
    assert_eq!(locate_smbios(&[x, SMBIOS_GUID, SMBIOS_GUID]), Some((EntryPoint::Bits32, 1)));
    assert_eq!(
        locate_smbios(&[SMBIOS_GUID, x, SMBIOS3_GUID, SMBIOS3_GUID]),
        Some((EntryPoint::Bits64, 2))
    );
}

#[test]
fn entry_points_give_address_and_size() {
    let mut wide = [0u8; 0x18];
    wide[0x0c..0x10].copy_from_slice(&0x0001_2345u32.to_le_bytes());
    wide[0x10..0x18].copy_from_slice(&0x1_0000_0008u64.to_le_bytes());
    assert_eq!(
        structure_table(EntryPoint::Bits64, &wide),
        Some(Region { address: 0x1_0000_0008, size: 0x0001_2345 })
    );
    let mut narrow = [0u8; 0x1c];
    narrow[0x16..0x18].copy_from_slice(&0xbeefu16.to_le_bytes());
    narrow[0x18..0x1c].copy_from_slice(&0x000f_0000u32.to_le_bytes());
    assert_eq!(
        structure_table(EntryPoint::Bits32, &narrow),
        Some(Region { address: 0x000f_0000, size: 0xbeef })
    );
    assert_eq!(EntryPoint::Bits64.len(), 0x18);
    assert_eq!(EntryPoint::Bits32.len(), 0x1c);
}

#[test]
fn an_empty_table_is_none() {
    let mut wide = [0u8; 0x18];
    assert_eq!(structure_table(EntryPoint::Bits64, &wide), None);
    wide[0x0c] = 1;
    assert_eq!(structure_table(EntryPoint::Bits64, &wide), None);
    wide[0x0c] = 0;
    wide[0x10] = 1;
    assert_eq!(structure_table(EntryPoint::Bits64, &wide), None);
}

#[test]
fn the_uuid_is_found_behind_other_structures() {
    let mut table = other();
    table.extend_from_slice(&[0x04, 0x04, 0x02, 0x00, 0x00, 0x00]);
    table.extend_from_slice(&system(uuid()));
    table.extend_from_slice(&system([0xee; 16]));
    assert_eq!(read_smbios_uuid(&table), Some(uuid()));
    assert_eq!(read_smbios_uuid(&system(uuid())), Some(uuid()));
}

#[test]
fn a_short_system_structure_is_skipped() {
    let mut table = vec![0x01, 0x08, 0x00, 0x00, 1, 2, 3, 4, 0, 0];
    assert_eq!(read_smbios_uuid(&table), None);
    table.extend_from_slice(&system(uuid()));
    assert_eq!(read_smbios_uuid(&table), Some(uuid()));
}

#[test]
fn the_walk_stops_at_the_end_and_at_corrupt_structures() {
    let mut ended = vec![0x7f, 0x04, 0xff, 0xff, 0, 0];
    ended.extend_from_slice(&system(uuid()));
    assert_eq!(read_smbios_uuid(&ended), None);
    let mut tiny = vec![0x02, 0x03, 0x00, 0x00, 0, 0];
    tiny.extend_from_slice(&system(uuid()));
    assert_eq!(read_smbios_uuid(&tiny), None);
    assert_eq!(read_smbios_uuid(&[]), None);
    assert_eq!(read_smbios_uuid(&[0x01, 0x1b, 0x00]), None);
    assert_eq!(read_smbios_uuid(&[0x01, 0x1b, 0x00, 0x00, 0x00]), None);
    let mut cut = system(uuid());
    cut.truncate(0x1a);
    assert_eq!(read_smbios_uuid(&cut), None);
    cut = other();
    cut.truncate(cut.len() - 1);
    assert_eq!(read_smbios_uuid(&cut), None);
}
