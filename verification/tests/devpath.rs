use pinnacle::devpath::{join_device_path, loader_path, own_boot_path, NodeList};
use pinnacle::status::{Status, NOT_FOUND};
use uefi::proto::device_path::DevicePath;

const DEVICE: [u8; 16] = [
    0x02, 0x01, 0x0c, 0x00, 0xd0, 0x41, 0x03, 0x0a, 0x00, 0x00, 0x00, 0x00, 0x7f, 0xff, 0x04, 0x00,
];

const FILE: [u8; 12] = [
    0x04, 0x04, 0x08, 0x00, 0x5c, 0x00, 0x00, 0x00, 0x7f, 0xff, 0x04, 0x00,
];

fn parse(bytes: &[u8]) -> NodeList {
    NodeList::parse(bytes).unwrap()
}

#[test]
fn the_loader_path_appends_a_file_node() {
    let path = loader_path(&parse(&DEVICE)).unwrap();
    let mut expected = DEVICE[..12].to_vec();
    expected.extend_from_slice(&[0x04, 0x04, 0x30, 0x00]);
    for c in "\\EFI\\boot\\BOOTX64.efi\0".chars() {
        expected.extend_from_slice(&(c as u16).to_le_bytes());
    }
    expected.extend_from_slice(&[0x7f, 0xff, 0x04, 0x00]);
    assert_eq!(path, expected);
    let read = <&DevicePath>::try_from(path.as_slice()).unwrap();
    assert_eq!(read.node_iter().count(), 2);
}

#[test]
fn a_device_and_a_file_are_joined() {
    let path = join_device_path(&parse(&DEVICE), &parse(&FILE)).unwrap();
    let mut expected = DEVICE[..12].to_vec();
    expected.extend_from_slice(&FILE);
    assert_eq!(path, expected);
    let again = join_device_path(&parse(&path), &parse(&[0x7f, 0xff, 0x04, 0x00])).unwrap();
    assert_eq!(again, path);
}

#[test]
fn bytes_behind_the_end_are_ignored() {
    let mut more = DEVICE.to_vec();
    more.extend_from_slice(&[1, 2, 3]);
    let end = parse(&[0x7f, 0xff, 0x04, 0x00]);
    assert_eq!(join_device_path(&parse(&more), &end).unwrap(), DEVICE.to_vec());
}

#[test]
fn bytes_without_a_whole_path_are_refused() {
    assert!(NodeList::parse(&[]).is_none());
    assert!(NodeList::parse(&DEVICE[..12]).is_none());
    assert!(NodeList::parse(&DEVICE[..15]).is_none());
    assert!(NodeList::parse(&[0x02, 0x01, 0x03, 0x00, 0x7f, 0xff, 0x04, 0x00]).is_none());
    assert!(NodeList::parse(&[0x02, 0x01, 0xff, 0x00, 0x7f, 0xff, 0x04, 0x00]).is_none());
}

#[test]
fn an_image_without_device_or_file_has_no_boot_path() {
    let device = parse(&DEVICE);
    let file = parse(&FILE);
    assert!(own_boot_path(Some(&device), Some(&file)).is_ok());
    assert_eq!(own_boot_path(None, Some(&file)), Err(Status(NOT_FOUND)));
    assert_eq!(own_boot_path(Some(&device), None), Err(Status(NOT_FOUND)));
    assert_eq!(own_boot_path(None, None), Err(Status(NOT_FOUND)));
}
